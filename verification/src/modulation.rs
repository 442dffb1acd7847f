//! What each modulation is: the laws its recipe, its series and its instants keep.

use vstd::arithmetic::div_mod::*;
use vstd::prelude::*;
use crate::clock::{times_by, turn_at, SampleClock, Turn};
use crate::names::modulations_have_names_of_their_own;
use crate::signal::{
    harmonic_limit, in_channel, instant_of, modulation_catalogue, pulse_part, series_terms, symbol_at, top_frequency, tone_in_range,
    twice_hop, Instant, PulseRegion, Tone, ToneModulation, ToneRecipe, RRC_SPAN,
};

verus! {

// ---------------------------------------------------------------------------
// Harmonic series
// ---------------------------------------------------------------------------

/// A series has at least its fundamental and at most 64 harmonics; beyond the fundamental none
/// lies above half the sample rate, and none is left out that would not. A waveform without a
/// positive frequency has its fundamental alone.
pub proof fn harmonics_fill_the_band(freq: int, sample_rate: int)
    requires
        0 <= sample_rate,
    ensures
        1 <= harmonic_limit(freq, sample_rate) <= 64,
        freq > 0 && harmonic_limit(freq, sample_rate) > 1 ==> 2 * harmonic_limit(freq, sample_rate)
            * freq <= sample_rate,
        freq > 0 && harmonic_limit(freq, sample_rate) < 64 ==> 2 * (harmonic_limit(
            freq,
            sample_rate,
        ) + 1) * freq > sample_rate,
        freq <= 0 ==> harmonic_limit(freq, sample_rate) == 1,
{
    if freq > 0 {
        let fit = sample_rate / (2 * freq);
        lemma_fundamental_div_mod(sample_rate, 2 * freq);
        lemma_mod_bound(sample_rate, 2 * freq);
        let limit = harmonic_limit(freq, sample_rate);
        assert(2 * fit * freq <= sample_rate < 2 * (fit + 1) * freq) by (nonlinear_arith)
            requires
                sample_rate == (2 * freq) * fit + sample_rate % (2 * freq),
                0 <= sample_rate % (2 * freq) < 2 * freq,
        ;
        if limit > 1 {
            assert(2 * limit * freq <= 2 * fit * freq) by (nonlinear_arith)
                requires
                    limit <= fit,
                    freq > 0,
            ;
        }
        if limit < 64 {
            assert(2 * (fit + 1) * freq <= 2 * (limit + 1) * freq) by (nonlinear_arith)
                requires
                    fit <= limit,
                    freq > 0,
            ;
        }
    }
}

/// What the series hold. A square and a triangle have the odd harmonics, a sawtooth has all, each
/// once and in order, as far as they are asked for. A harmonic is as weak as its number says, in a
/// triangle as the square of it. A square adds them all; a sawtooth takes the even ones away; a
/// triangle takes every second one away, starting after the fundamental. Any other waveform is its
/// fundamental.
pub proof fn series_hold_their_harmonics(kind: ToneModulation, max_n: nat, k: int)
    requires
        1 <= max_n <= 64,
        0 <= k < series_terms(kind, max_n).len(),
    ensures
        ({
            let terms = series_terms(kind, max_n);
            let term = terms[k];
            let odd_only = kind == ToneModulation::Square || kind == ToneModulation::Triangle;
            let next = k + 1 < terms.len();
            &&& terms[0].number == 1 && terms[0].divisor == 1 && !terms[0].negative
            &&& 1 <= term.number <= max_n
            &&& next && odd_only ==> terms[k + 1].number == term.number + 2
            &&& next && !odd_only ==> terms[k + 1].number == term.number + 1
            &&& odd_only ==> terms.last().number + 2 > max_n
            &&& kind == ToneModulation::Sawtooth ==> terms.last().number == max_n
            &&& kind != ToneModulation::Triangle ==> term.divisor == term.number
            &&& kind == ToneModulation::Triangle ==> term.divisor == term.number * term.number
            &&& kind == ToneModulation::Square ==> !term.negative
            &&& kind == ToneModulation::Sawtooth ==> (term.negative <==> term.number % 2 == 0)
            &&& kind == ToneModulation::Triangle && next ==> terms[k + 1].negative != term.negative
            &&& !odd_only && kind != ToneModulation::Sawtooth ==> terms.len() == 1
        }),
{
    if kind == ToneModulation::Triangle {
        let m = 2 * k + 1;
        assert(1 <= m <= 64);
        assert(0 <= m * m <= 64 * 64) by (nonlinear_arith)
            requires
                1 <= m <= 64,
        ;
        let terms = series_terms(kind, max_n);
        assert((2 * 0int + 1) * (2 * 0int + 1) == 1) by (nonlinear_arith);
        assert(terms[0].divisor == 1);
        assert(terms[k].number == m && terms[k].divisor == m * m);
    }
}

/// The highest frequency of a waveform is a harmonic of it within half the sample rate, unless it
/// is the fundamental, and the next harmonic of its kind would not be.
pub proof fn top_frequency_is_the_last_harmonic(kind: ToneModulation, freq: int, sample_rate: int)
    requires
        freq > 0,
        0 <= sample_rate,
    ensures
        ({
            let top = top_frequency(kind, freq, sample_rate);
            let odd_only = kind == ToneModulation::Square || kind == ToneModulation::Triangle;
            &&& top >= freq
            &&& top > freq ==> 2 * top <= sample_rate
            &&& odd_only && top < 63 * freq ==> 2 * (top + 2 * freq) > sample_rate
            &&& kind == ToneModulation::Sawtooth && top < 64 * freq ==> 2 * (top + freq)
                > sample_rate
            &&& !odd_only && kind != ToneModulation::Sawtooth ==> top == freq
        }),
{
    let limit = harmonic_limit(freq, sample_rate);
    let odd_only = kind == ToneModulation::Square || kind == ToneModulation::Triangle;
    harmonics_fill_the_band(freq, sample_rate);
    if odd_only || kind == ToneModulation::Sawtooth {
        let terms = series_terms(kind, limit as nat);
        let last = terms.len() - 1;
        series_hold_their_harmonics(kind, limit as nat, last);
        let n = terms.last().number as int;
        let top = top_frequency(kind, freq, sample_rate);
        assert(top == n * freq);
        assert(top >= freq) by (nonlinear_arith)
            requires
                top == n * freq,
                n >= 1,
                freq > 0,
        ;
        if top > freq {
            assert(n > 1) by (nonlinear_arith)
                requires
                    n * freq > freq,
                    freq > 0,
            ;
            assert(2 * top <= 2 * limit * freq) by (nonlinear_arith)
                requires
                    top == n * freq,
                    n <= limit,
                    freq > 0,
            ;
        }
        if odd_only && top < 63 * freq {
            assert(n < 63) by (nonlinear_arith)
                requires
                    n * freq < 63 * freq,
                    freq > 0,
            ;
            assert(n % 2 == 1);
            assert(limit <= n + 1);
            assert(2 * (top + 2 * freq) >= 2 * (limit + 1) * freq) by (nonlinear_arith)
                requires
                    top == n * freq,
                    limit + 1 <= n + 2,
                    freq > 0,
            ;
        }
        if kind == ToneModulation::Sawtooth && top < 64 * freq {
            assert(n < 64) by (nonlinear_arith)
                requires
                    n * freq < 64 * freq,
                    freq > 0,
            ;
            assert(2 * (top + freq) == 2 * (limit + 1) * freq) by (nonlinear_arith)
                requires
                    top == n * freq,
                    limit == n,
            ;
        }
    }
}

// ---------------------------------------------------------------------------
// Recipes
// ---------------------------------------------------------------------------

/// Only an unmodulated tone with a bandwidth is a channel; without one it is a carrier. No other
/// modulation is either.
pub proof fn only_a_wide_carrier_is_a_channel(tone: Tone, sample_rate: int)
    ensures
        tone.modulation == ToneModulation::Cw && tone.bandwidth_mhz > 0 ==> tone.recipe_at(
            sample_rate,
        ) is Channel,
        tone.modulation == ToneModulation::Cw && tone.bandwidth_mhz <= 0 ==> tone.recipe_at(
            sample_rate,
        ) is Carrier,
        tone.modulation != ToneModulation::Cw ==> !(tone.recipe_at(sample_rate) is Channel)
            && !(tone.recipe_at(sample_rate) is Carrier),
{
}

/// A recipe brings each setting into its range and keeps one that lies in it.
///
/// - A depth is nought to a hundred percent.
/// - A deviation counts only with a modulating frequency.
/// - A sweep lasts at least a nanosecond, and is centred on the tone's frequency and as wide as
///   its bandwidth, or 100 MHz without one.
/// - Pulses are at least 100 picoseconds wide and repeat after at least a nanosecond; a pulse is no
///   longer than that, and its edges no longer than half of it.
/// - There is at least one hop channel, and hops and symbols come at a positive rate.
/// - A roll-off is a hundredth to one.
pub proof fn recipes_keep_settings_in_range(tone: Tone, sample_rate: int)
    requires
        tone_in_range(tone),
    ensures
        match (tone.modulation, tone.recipe_at(sample_rate)) {
            (
                ToneModulation::AmModulated { depth_percent, mod_freq_khz },
                ToneRecipe::Am { depth_percent: depth, mod_freq_khz: rate },
            ) => {
                &&& 0 <= depth <= 100_000_000
                &&& 0 <= depth_percent <= 100_000_000 ==> depth == depth_percent
                &&& depth_percent < 0 ==> depth == 0
                &&& depth_percent > 100_000_000 ==> depth == 100_000_000
                &&& rate == mod_freq_khz
            },
            (
                ToneModulation::FmModulated { dev_mhz, mod_freq_khz },
                ToneRecipe::Fm { dev_mhz: dev, mod_freq_khz: rate },
            ) => {
                &&& rate == mod_freq_khz
                &&& mod_freq_khz > 0 ==> dev == dev_mhz
                &&& mod_freq_khz <= 0 ==> dev == 0
            },
            (
                ToneModulation::SweptChirp { sweep_period_us, triangular },
                ToneRecipe::Chirp {
                    period_us,
                    bandwidth_mhz,
                    twice_start_mhz,
                    triangular: both_ways,
                },
            ) => {
                &&& period_us >= 1_000
                &&& period_us > 1_000 ==> period_us == sweep_period_us
                &&& sweep_period_us >= 1_000 ==> period_us == sweep_period_us
                &&& tone.bandwidth_mhz > 0 ==> bandwidth_mhz == tone.bandwidth_mhz
                &&& tone.bandwidth_mhz <= 0 ==> bandwidth_mhz == 100_000_000
                &&& twice_start_mhz + bandwidth_mhz == 2 * tone.frequency_mhz
                &&& both_ways == triangular
            },
            (
                ToneModulation::PulsedRadar { pulse_width_us, pri_us, rise_ns, chirp_mhz },
                ToneRecipe::Pulse { pri_us: pri, width_us, rise_ns: rise, chirp_mhz: chirp },
            ) => {
                &&& pri >= 1_000
                &&& pri_us >= 1_000 ==> pri == pri_us
                &&& pri_us < 1_000 ==> pri == 1_000
                &&& 100 <= width_us <= pri
                &&& 100 <= pulse_width_us <= pri ==> width_us == pulse_width_us
                &&& pulse_width_us < 100 ==> width_us == 100
                &&& pulse_width_us > pri ==> width_us == pri
                &&& 0 <= rise && 2 * rise <= 1_000 * width_us
                &&& 0 <= rise_ns && 2 * rise_ns <= 1_000 * width_us ==> rise == rise_ns
                &&& rise_ns < 0 ==> rise == 0
                &&& 2 * rise_ns > 1_000 * width_us ==> 2 * rise == 1_000 * width_us
                &&& chirp == chirp_mhz
            },
            (
                ToneModulation::FreqHopping { hop_step_mhz, num_channels, hop_rate_hz },
                ToneRecipe::Hopping { step_mhz, channels, rate_hz },
            ) => {
                &&& step_mhz == hop_step_mhz
                &&& channels >= 1
                &&& num_channels >= 1 ==> channels == num_channels
                &&& num_channels == 0 ==> channels == 1
                &&& hop_rate_hz >= 1_000 ==> rate_hz == hop_rate_hz
                &&& hop_rate_hz < 1_000 ==> rate_hz == 1_000
            },
            (
                ToneModulation::DigitalQpsk { symbol_rate_msps, rrc_alpha },
                ToneRecipe::Qpsk { symbol_rate_msps: rate, alpha },
            ) => {
                &&& symbol_rate_msps >= 1_000 ==> rate == symbol_rate_msps
                &&& symbol_rate_msps < 1_000 ==> rate == 1_000
                &&& 10_000 <= alpha <= 1_000_000
                &&& 10_000 <= rrc_alpha <= 1_000_000 ==> alpha == rrc_alpha
                &&& rrc_alpha < 10_000 ==> alpha == 10_000
                &&& rrc_alpha > 1_000_000 ==> alpha == 1_000_000
            },
            (ToneModulation::Cw, recipe) => recipe is Channel || recipe is Carrier,
            (
                ToneModulation::Square | ToneModulation::Sawtooth | ToneModulation::Triangle,
                ToneRecipe::Harmonics { max_harmonic },
            ) => 1 <= max_harmonic <= 64,
            _ => false,
        },
{
}

// ---------------------------------------------------------------------------
// Pulses and hops
// ---------------------------------------------------------------------------

/// A pulse is on from its start to its end and off elsewhere. Within it an instant nearer to either
/// end than the edge time lies on an edge, as deep as it is from that end; any other is at full
/// output.
pub proof fn edges_reach_in_from_both_ends(tau: int, width: int, rise: int)
    requires
        0 <= 2 * rise <= width <= i128::MAX,
    ensures
        ({
            let inside = 0 <= tau <= width;
            let nearest = if tau <= width - tau {
                tau
            } else {
                width - tau
            };
            &&& pulse_part(tau, width, rise) is Off <==> !inside
            &&& pulse_part(tau, width, rise) is Flat <==> inside && nearest >= rise
            &&& pulse_part(tau, width, rise) matches PulseRegion::Edge { depth } ==> depth
                == nearest && 0 <= depth < rise
        }),
{
}

/// Neighbouring channels of a hop grid are a step apart, and the grid lies evenly about its
/// centre, as far as its frequencies stay positive. None falls below one hertz.
pub proof fn hop_grids_are_even(centre: int, channel: int, channels: int, step: int)
    requires
        0 <= channel < channels,
    ensures
        twice_hop(centre, channel, channels, step) >= 2,
        twice_hop(centre, channel, channels, step) > 2 && twice_hop(
            centre,
            channel + 1,
            channels,
            step,
        ) > 2 ==> twice_hop(centre, channel + 1, channels, step) - twice_hop(
            centre,
            channel,
            channels,
            step,
        ) == 2 * step,
        twice_hop(centre, channel, channels, step) > 2 && twice_hop(
            centre,
            channels - 1 - channel,
            channels,
            step,
        ) > 2 ==> twice_hop(centre, channel, channels, step) + twice_hop(
            centre,
            channels - 1 - channel,
            channels,
            step,
        ) == 4 * centre,
        centre >= 1 ==> twice_hop(centre, 0, 1, step) == 2 * centre,
{
    let at = 2 * channel - (channels - 1);
    assert((2 * (channel + 1) - (channels - 1)) * step == at * step + 2 * step) by (nonlinear_arith)
        requires
            at == 2 * channel - (channels - 1),
    ;
    assert((2 * (channels - 1 - channel) - (channels - 1)) * step == -(at * step))
        by (nonlinear_arith)
        requires
            at == 2 * channel - (channels - 1),
    ;
    assert((2 * 0 - (1 - 1)) * step == 0) by (nonlinear_arith);
}

// ---------------------------------------------------------------------------
// Instants
// ---------------------------------------------------------------------------

/// A turn stands where an oscillation has come to: whole turns and its position make up what it has
/// turned since time zero. `count` oscillations take `whole` of scaled time.
pub open spec fn stands_at(turn: Turn, t: int, count: int, whole: int) -> bool {
    &&& turn.whole == whole
    &&& 0 <= turn.position < whole
    &&& exists|n: int| t * count == #[trigger] (n * whole) + turn.position
}

proof fn turns_stand_where_they_are(t: int, count: int, whole: int)
    requires
        0 < whole <= i128::MAX,
    ensures
        stands_at(turn_at(t, count, whole), t, count, whole),
        ({
            let n = times_by(t, count, whole);
            n * whole <= t * count < (n + 1) * whole
        }),
{
    let x = t * count;
    lemma_fundamental_div_mod(x, whole);
    lemma_mod_bound(x, whole);
    let n = x / whole;
    assert(whole * n == n * whole) by (nonlinear_arith);
    assert((n + 1) * whole == n * whole + whole) by (nonlinear_arith);
    assert(t * count == n * whole + turn_at(t, count, whole).position);
}

proof fn periods_are_positive(clock: SampleClock, period: int, per: int)
    requires
        clock.wf(),
        0 < period <= i64::MAX,
        0 < per <= 1_000_000,
    ensures
        0 < period * clock.sample_rate_mhz <= i128::MAX,
        0 < per * (1_000_000_000_000 * clock.sample_rate_mhz) <= i128::MAX,
{
    let rate = clock.sample_rate_mhz as int;
    assert(0 < period * rate <= 0x7fff_ffff_ffff_ffff * 20_000_000_000) by (nonlinear_arith)
        requires
            0 < period <= 0x7fff_ffff_ffff_ffff,
            0 < rate <= 20_000_000_000,
    ;
    assert(0 < per * (1_000_000_000_000 * rate) <= 1_000_000 * (1_000_000_000_000
        * 20_000_000_000)) by (nonlinear_arith)
        requires
            0 < per <= 1_000_000,
            0 < rate <= 20_000_000_000,
    ;
}

/// Where a tone stands at a sample, in absolute time.
///
/// - A carrier has turned as often as its frequency says, whatever else the tone does; so has what
///   modulates it.
/// - A sweep and a pulse interval have come as far as the time since their last repetition.
/// - The part of a pulse is told from how far its interval has come.
/// - The current symbol is the last that has started, and `into` how far it has come.
/// - A hop channel is one of the grid.
pub proof fn tones_stand_where_time_has_brought_them(tone: Tone, clock: SampleClock, i: int)
    requires
        clock.wf(),
        tone_in_range(tone),
    ensures
        ({
            let t = clock.scaled_time(i);
            let rate = clock.sample_rate_mhz as int;
            let second = 1_000_000_000_000 * rate;
            let freq = tone.frequency_mhz as int;
            match (tone.recipe_at(rate), instant_of(tone, clock, i)) {
                (ToneRecipe::Channel, Instant::Redrawn { index }) => index == i as usize,
                (
                    ToneRecipe::Carrier | ToneRecipe::Harmonics { .. },
                    Instant::Carrier { carrier },
                ) => stands_at(carrier, t, freq, second),
                (
                    ToneRecipe::Am { mod_freq_khz, .. } | ToneRecipe::Fm { mod_freq_khz, .. },
                    Instant::Modulated { carrier, modulating },
                ) => {
                    &&& stands_at(carrier, t, freq, second)
                    &&& stands_at(modulating, t, mod_freq_khz as int, 1_000 * second)
                },
                (ToneRecipe::Chirp { period_us, .. }, Instant::Swept { sweep }) => {
                    stands_at(sweep, t, 1, period_us * rate)
                },
                (
                    ToneRecipe::Pulse { pri_us, width_us, rise_ns, .. },
                    Instant::Pulsed { carrier, interval, region },
                ) => {
                    &&& stands_at(carrier, t, freq, second)
                    &&& stands_at(interval, t, 1, pri_us * rate)
                    &&& region is Off <==> interval.position > width_us * rate
                    &&& region is Edge ==> region->depth < rise_ns * rate
                },
                (
                    ToneRecipe::Hopping { channels, step_mhz, .. },
                    Instant::Hopped { channel, carrier },
                ) => {
                    &&& channel < channels
                    &&& stands_at(
                        carrier,
                        t,
                        twice_hop(freq, channel as int, channels as int, step_mhz as int),
                        2 * second,
                    )
                },
                (
                    ToneRecipe::Qpsk { symbol_rate_msps, .. },
                    Instant::Keyed { carrier, into, symbol },
                ) => {
                    &&& symbol == symbol_at(clock, i, symbol_rate_msps as int) as i128
                    &&& stands_at(carrier, t, freq, second)
                    &&& stands_at(into, t, symbol_rate_msps as int, second)
                    &&& symbol_at(clock, i, symbol_rate_msps as int) * second <= t
                        * symbol_rate_msps
                    &&& t * symbol_rate_msps < (symbol_at(clock, i, symbol_rate_msps as int) + 1)
                        * second
                },
                _ => false,
            }
        }),
{
    let t = clock.scaled_time(i);
    let rate = clock.sample_rate_mhz as int;
    let second = 1_000_000_000_000 * rate;
    let freq = tone.frequency_mhz as int;
    periods_are_positive(clock, 1, 1);
    periods_are_positive(clock, 1, 1_000);
    turns_stand_where_they_are(t, freq, 1 * second);
    match tone.recipe_at(rate) {
        ToneRecipe::Am { mod_freq_khz, .. } | ToneRecipe::Fm { mod_freq_khz, .. } => {
            turns_stand_where_they_are(t, mod_freq_khz as int, 1_000 * second);
        },
        ToneRecipe::Chirp { period_us, .. } => {
            periods_are_positive(clock, period_us as int, 1);
            turns_stand_where_they_are(t, 1, period_us * rate);
        },
        ToneRecipe::Pulse { pri_us, width_us, rise_ns, .. } => {
            periods_are_positive(clock, pri_us as int, 1);
            turns_stand_where_they_are(t, 1, pri_us * rate);
            recipes_keep_settings_in_range(tone, rate);
            assert(0 < width_us * rate <= pri_us * rate) by (nonlinear_arith)
                requires
                    0 < width_us <= pri_us,
                    0 < rate,
            ;
            assert(0 <= rise_ns * rate && 2 * (rise_ns * rate) <= 1_000 * (width_us * rate))
                by (nonlinear_arith)
                requires
                    0 <= rise_ns,
                    2 * rise_ns <= 1_000 * width_us,
                    0 < rate,
            ;
            assert(pri_us * rate <= 0x7fff_ffff_ffff_ffff * 20_000_000_000) by (nonlinear_arith)
                requires
                    0 < pri_us <= 0x7fff_ffff_ffff_ffff,
                    0 < rate <= 20_000_000_000,
            ;
            edges_reach_in_from_both_ends(
                1_000 * turn_at(t, 1, pri_us * rate).position,
                1_000 * (width_us * rate),
                rise_ns * rate,
            );
        },
        ToneRecipe::Hopping { channels, step_mhz, .. } => {
            periods_are_positive(clock, 1, 2);
            if let Instant::Hopped { channel, .. } = instant_of(tone, clock, i) {
                turns_stand_where_they_are(
                    t,
                    twice_hop(freq, channel as int, channels as int, step_mhz as int),
                    2 * second,
                );
            }
        },
        ToneRecipe::Qpsk { symbol_rate_msps, .. } => {
            turns_stand_where_they_are(t, symbol_rate_msps as int, 1 * second);
        },
        _ => {},
    }
}

// ---------------------------------------------------------------------------
// The clock
// ---------------------------------------------------------------------------

/// A clock moves on by one sample period with every sample, as many of which as the sample rate
/// says make a second; the sample after the lead is the one at the starting time.
pub proof fn clocks_move_on_sample_by_sample(clock: SampleClock, i: int)
    requires
        clock.wf(),
    ensures
        clock.scaled_time(i + 1) == clock.scaled_time(i) + 1_000_000_000_000,
        clock.scaled_time(i + clock.sample_rate_mhz) == clock.scaled_time(i) + clock.second(),
        clock.scaled_time(clock.lead as int) == clock.start_time_us * clock.sample_rate_mhz,
{
    let (r, l, u) = (clock.sample_rate_mhz as int, clock.lead as int, 1_000_000_000_000int);
    assert((i + r - l) * u == (i - l) * u + u * r) by (nonlinear_arith);
}

/// Of two clocks at one rate the one that starts later by a time is ahead by that time at every
/// sample; a longer lead puts it back by as many samples.
pub proof fn later_clocks_are_ahead(clock: SampleClock, later: SampleClock, i: int)
    requires
        later.sample_rate_mhz == clock.sample_rate_mhz,
    ensures
        later.scaled_time(i) - clock.scaled_time(i) == (later.start_time_us - clock.start_time_us)
            * clock.sample_rate_mhz - (later.lead - clock.lead) * 1_000_000_000_000,
{
    let (a, b, r) = (
        clock.start_time_us as int,
        later.start_time_us as int,
        clock.sample_rate_mhz as int,
    );
    assert((b - a) * r == b * r - a * r) by (nonlinear_arith);
}

/// The bins of a channel are those whose frequency lies within half its bandwidth of its centre, on
/// either side. They lie next to one another, and reach no further than the bandwidth.
pub proof fn channels_reach_half_their_bandwidth(
    tone: Tone,
    n: int,
    sample_rate: int,
    low: int,
    k: int,
    high: int,
)
    requires
        0 < n,
        0 < sample_rate,
        low <= k <= high,
    ensures
        ({
            let off = k * sample_rate - tone.frequency_mhz * n;
            in_channel(tone, k, n, sample_rate) <==> 2 * off <= tone.bandwidth_mhz * n && -2 * off
                <= tone.bandwidth_mhz * n
        }),
        in_channel(tone, low, n, sample_rate) && in_channel(tone, high, n, sample_rate)
            ==> in_channel(tone, k, n, sample_rate) && (high - low) * sample_rate
            <= tone.bandwidth_mhz * n,
{
    assert(low * sample_rate <= k * sample_rate <= high * sample_rate) by (nonlinear_arith)
        requires
            low <= k <= high,
            0 < sample_rate,
    ;
    assert((high - low) * sample_rate == high * sample_rate - low * sample_rate)
        by (nonlinear_arith);
}

/// A symbol shapes the waveform from six symbols before it to six after it, so the symbols drawn for
/// a block reach six beyond it on either side, and no further.
pub proof fn symbols_reach_six_either_way(clock: SampleClock, num_samples: int, i: int, rate: int, k: int)
    requires
        clock.wf(),
        0 <= i <= num_samples,
        0 <= rate,
    ensures
        symbol_at(clock, i, rate) - 6 <= k <= symbol_at(clock, i, rate) + 6 ==> symbol_at(
            clock,
            0,
            rate,
        ) - RRC_SPAN <= k <= symbol_at(clock, num_samples, rate) + RRC_SPAN,
        symbol_at(clock, 0, rate) - RRC_SPAN == symbol_at(clock, 0, rate) - 6,
{
    clock.counts_are_monotone(0, i, rate, 1);
    clock.counts_are_monotone(i, num_samples, rate, 1);
}

/// The catalogue offers ten modulations, each of a kind of its own, an unmodulated carrier first.
pub proof fn catalogue_has_one_of_each_kind(i: int, j: int)
    requires
        0 <= i < j < modulation_catalogue().len(),
    ensures
        modulation_catalogue().len() == 10,
        modulation_catalogue()[0] is Cw,
        modulation_catalogue()[i].label_text() != modulation_catalogue()[j].label_text(),
{
    let list = modulation_catalogue();
    if list[i].label_text() == list[j].label_text() {
        modulations_have_names_of_their_own(list[i], list[j]);
    }
}

} // verus!
