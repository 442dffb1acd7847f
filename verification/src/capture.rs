//! The plan of one capture: the lengths and decisions that process a wideband record through a
//! converter block.

use vstd::arithmetic::div_mod::*;
use vstd::prelude::*;
use crate::adc::{
    apply_digital_non_idealities, impairments, impairments_of, is_digital_record,
};
use crate::decimation::{
    apply_decimation, decimated_length, is_decimated, is_window,
    needed_samples_decimate_to_the_bins, sufficient_record_fills_the_bins, tap_window,
    DecimationChain, TapWindow,
};
use crate::rfdc::{
    rate_in_range, resolve_nco_freq, resolved_nco, resolved_nco_is_an_alias, tuned_alias_is_an_alias,
    tuned_nco_passes_through, AdcBlock, AdcTile, CoarseMixFreq, MixerMode,
};
use crate::spectrum::{
    analysed, analysed_len, analysis_fft_size, analysis_length, axis_bins, compute_spectrum_padded,
    compute_spectrum_positive_padded, display_pad_factor, is_one_sided_spectrum, is_pad_factor,
    is_spectrum, one_sided, padded, padding_reaches_the_display, transform_points, FftWindow,
    SpectrumAnalysis,
    DISPLAY_FFT_SIZE,
};
use crate::units::{Micro, Ratio};

verus! {

// ---------------------------------------------------------------------------
// Sampling at the tile rate
// ---------------------------------------------------------------------------

/// Half-width of the resampling kernel.
pub const RESAMPLER_RADIUS: i64 = 16;

/// Taps the kernel spans, centred on the sample below the requested position.
pub const RESAMPLER_TAPS: i64 = 33;

/// Fractional positions the kernel is tabulated at.
pub const RESAMPLER_PHASES: i64 = 4096;

/// Samples at the tile rate that a record at the simulation rate covers.
pub open spec fn resampled_length(len: int, sim_rate: int, tile_rate: int) -> int {
    if tile_rate <= 0 {
        0
    } else {
        (len * tile_rate) / sim_rate
    }
}

/// Number of tile-rate samples a wideband record yields.
pub fn resampled_len(len: usize, sim_rate_mhz: Micro, tile_rate_mhz: Micro) -> (n: usize)
    requires
        sim_rate_mhz > 0,
        resampled_length(len as int, sim_rate_mhz as int, tile_rate_mhz as int) <= usize::MAX,
    ensures
        n == resampled_length(len as int, sim_rate_mhz as int, tile_rate_mhz as int),
{
    if tile_rate_mhz <= 0 {
        return 0;
    }
    assert(0 <= len * tile_rate_mhz <= 0xffff_ffff_ffff_ffff * 0x7fff_ffff_ffff_ffff)
        by (nonlinear_arith)
        requires
            0 <= len <= 0xffff_ffff_ffff_ffff,
            0 < tile_rate_mhz <= 0x7fff_ffff_ffff_ffff,
    ;
    proof {
        lemma_div_pos_is_pos(len * tile_rate_mhz, sim_rate_mhz as int);
    }
    ((len as i128 * tile_rate_mhz as i128) / sim_rate_mhz as i128) as usize
}

/// Where one tile-rate sample is read from the wideband record.
#[derive(Clone, Copy, Debug, PartialEq, Eq, Structural)]
pub struct ResamplePoint {
    /// The first sample under the kernel; before the record near its start.
    pub first: i64,
    /// The tabulated phase below the exact fractional position.
    pub phase: usize,
    /// How far the exact position lies towards the next phase, in units of the tile rate.
    pub between: i64,
    /// Whether every tap lands on a sample of the record.
    pub interior: bool,
}

/// The position of tile-rate sample `n` in the record, multiplied by the tile rate.
pub open spec fn position(n: int, sim_rate: int) -> int {
    n * sim_rate
}

/// The read point of tile-rate sample `n`: the kernel is centred on the sample below the exact
/// position, and the fraction left picks the phase.
pub open spec fn point_of(n: int, len: int, sim_rate: int, tile_rate: int) -> ResamplePoint {
    let centre = position(n, sim_rate) / tile_rate;
    let frac = position(n, sim_rate) % tile_rate;
    let first = centre - RESAMPLER_RADIUS;
    ResamplePoint {
        first: first as i64,
        phase: ((frac * RESAMPLER_PHASES) / tile_rate) as usize,
        between: ((frac * RESAMPLER_PHASES) % tile_rate) as i64,
        interior: first >= 0 && first + RESAMPLER_TAPS <= len,
    }
}

/// Finds where tile-rate sample `n` is read from a record of `len` samples.
pub fn resample_point(n: usize, len: usize, sim_rate_mhz: Micro, tile_rate_mhz: Micro) -> (point:
    ResamplePoint)
    requires
        sim_rate_mhz > 0,
        tile_rate_mhz > 0,
        n < resampled_length(len as int, sim_rate_mhz as int, tile_rate_mhz as int),
        len <= i64::MAX,
    ensures
        point == point_of(n as int, len as int, sim_rate_mhz as int, tile_rate_mhz as int),
        point.phase < RESAMPLER_PHASES,
        0 <= point.between < tile_rate_mhz,
        0 <= point.first + RESAMPLER_RADIUS < len,
{
    let sim: i128 = sim_rate_mhz as i128;
    let tile: i128 = tile_rate_mhz as i128;
    proof {
        centre_is_in_record(n as int, len as int, sim as int, tile as int);
        assert(0 <= n * sim <= 0xffff_ffff_ffff_ffff * 0x7fff_ffff_ffff_ffff) by (nonlinear_arith)
            requires
                0 <= n <= 0xffff_ffff_ffff_ffff,
                0 < sim <= 0x7fff_ffff_ffff_ffff,
        ;
    }
    let at: i128 = n as i128 * sim;
    let centre: i128 = at / tile;
    let frac: i128 = at % tile;
    proof {
        lemma_mod_bound(at as int, tile as int);
        phase_is_in_table(frac as int, tile as int);
    }
    let scaled: i128 = frac * RESAMPLER_PHASES as i128;
    let first: i128 = centre - RESAMPLER_RADIUS as i128;
    ResamplePoint {
        first: first as i64,
        phase: (scaled / tile) as usize,
        between: (scaled % tile) as i64,
        interior: first >= 0 && first + RESAMPLER_TAPS as i128 <= len as i128,
    }
}

proof fn phase_is_in_table(frac: int, tile: int)
    requires
        0 <= frac < tile,
    ensures
        0 <= (frac * 4096) / tile < 4096,
        0 <= (frac * 4096) % tile < tile,
{
    let x = frac * 4096;
    lemma_fundamental_div_mod(x, tile);
    lemma_mod_bound(x, tile);
    lemma_div_pos_is_pos(x, tile);
    assert(x / tile < 4096) by (nonlinear_arith)
        requires
            x == tile * (x / tile) + x % tile,
            0 <= x % tile,
            x < 4096 * tile,
            tile > 0,
    ;
}

proof fn centre_is_in_record(n: int, len: int, sim: int, tile: int)
    requires
        sim > 0,
        tile > 0,
        0 <= n < (len * tile) / sim,
        0 <= len,
    ensures
        0 <= (n * sim) / tile < len,
{
    let q = (len * tile) / sim;
    lemma_fundamental_div_mod(len * tile, sim);
    lemma_mod_bound(len * tile, sim);
    assert(n * sim < len * tile) by (nonlinear_arith)
        requires
            n + 1 <= q,
            len * tile == sim * q + (len * tile) % sim,
            0 <= (len * tile) % sim,
            sim > 0,
    ;
    assert(0 <= n * sim) by (nonlinear_arith)
        requires
            0 <= n,
            sim > 0,
    ;
    lemma_div_pos_is_pos(n * sim, tile);
    let c = (n * sim) / tile;
    lemma_fundamental_div_mod(n * sim, tile);
    lemma_mod_bound(n * sim, tile);
    assert(c < len) by (nonlinear_arith)
        requires
            n * sim == tile * c + (n * sim) % tile,
            0 <= (n * sim) % tile,
            n * sim < len * tile,
            tile > 0,
    ;
}

/// At equal rates every tile-rate sample sits exactly on a sample of the record.
pub proof fn equal_rates_read_samples_themselves(n: int, len: int, rate: int)
    requires
        0 < rate,
        0 <= n,
        n + RESAMPLER_RADIUS <= i64::MAX,
    ensures
        point_of(n, len, rate, rate).first == n - RESAMPLER_RADIUS,
        point_of(n, len, rate, rate).phase == 0,
        point_of(n, len, rate, rate).between == 0,
{
    lemma_div_by_multiple(n, rate);
    lemma_mod_multiples_basic(n, rate);
    assert(0int / rate == 0 && 0int % rate == 0) by (nonlinear_arith)
        requires
            rate > 0,
    ;
}

/// The successive sums of record samples and kernel taps under one read point, built up from
/// `zero` in order.
pub open spec fn are_partial_reads<V, A, F: Fn(A, V, usize, ResamplePoint) -> A>(
    mac: F,
    zero: A,
    record: Seq<V>,
    point: ResamplePoint,
    window: TapWindow,
    sums: Seq<A>,
) -> bool {
    &&& sums.len() > 0
    &&& sums[0] == zero
    &&& forall|i: int|
        0 <= i < sums.len() - 1 ==> call_ensures(
            mac,
            (
                sums[i],
                record[window.first_sample + i],
                (window.first_tap + i) as usize,
                point,
            ),
            #[trigger] sums[i + 1],
        )
}

/// `value` is tile-rate sample `n`: the kernel laid over the record at the sample's read point,
/// clipped at the ends of the record, each sample keeping its tap.
pub open spec fn is_reading<
    V,
    A,
    T,
    F: Fn(A, V, usize, ResamplePoint) -> A,
    G: Fn(A, ResamplePoint) -> T,
>(mac: F, finish: G, zero: A, record: Seq<V>, sim_rate: int, tile_rate: int, n: int, value: T) -> bool {
    let point = point_of(n, record.len() as int, sim_rate, tile_rate);
    exists|window: TapWindow, sums: Seq<A>|
        {
            &&& #[trigger] are_partial_reads(mac, zero, record, point, window, sums)
            &&& is_window(
                window,
                position(n, sim_rate) / tile_rate,
                record.len() as int,
                RESAMPLER_TAPS as int,
            )
            &&& sums.len() == window.count + 1
            &&& call_ensures(finish, (sums.last(), point), value)
        }
}

/// Reads one tile-rate sample out of the record.
fn read_at<
    V: Copy,
    A: Copy,
    T,
    F: Fn(A, V, usize, ResamplePoint) -> A,
    G: Fn(A, ResamplePoint) -> T,
>(
    record: &Vec<V>,
    n: usize,
    sim_rate_mhz: Micro,
    tile_rate_mhz: Micro,
    zero: A,
    mac: &F,
    finish: &G,
) -> (value: T)
    requires
        sim_rate_mhz > 0,
        tile_rate_mhz > 0,
        record.len() <= i64::MAX,
        record.len() + RESAMPLER_TAPS <= usize::MAX,
        n < resampled_length(record.len() as int, sim_rate_mhz as int, tile_rate_mhz as int),
        forall|acc: A, x: V, tap: usize, point: ResamplePoint| #[trigger]
            call_requires(*mac, (acc, x, tap, point)),
        forall|acc: A, point: ResamplePoint| #[trigger] call_requires(*finish, (acc, point)),
    ensures
        is_reading(
            *mac,
            *finish,
            zero,
            record@,
            sim_rate_mhz as int,
            tile_rate_mhz as int,
            n as int,
            value,
        ),
{
    let point: ResamplePoint = resample_point(n, record.len(), sim_rate_mhz, tile_rate_mhz);
    let centre: usize = (point.first + RESAMPLER_RADIUS) as usize;
    proof {
        centre_is_in_record(
            n as int,
            record.len() as int,
            sim_rate_mhz as int,
            tile_rate_mhz as int,
        );
    }
    let window: TapWindow = tap_window(centre, record.len(), RESAMPLER_TAPS as usize);
    let mut acc: A = zero;
    let mut i: usize = 0;
    let ghost mut sums: Seq<A> = seq![zero];
    while i < window.count
        invariant
            forall|acc: A, x: V, tap: usize, point: ResamplePoint| #[trigger]
                call_requires(*mac, (acc, x, tap, point)),
            i <= window.count,
            window.first_sample + window.count <= record.len(),
            window.first_tap + window.count <= RESAMPLER_TAPS,
            are_partial_reads(*mac, zero, record@, point, window, sums),
            sums.len() == i + 1,
            sums.last() == acc,
        decreases window.count - i,
    {
        let x: V = record[window.first_sample + i];
        acc = (*mac)(acc, x, window.first_tap + i, point);
        proof {
            let longer = sums.push(acc);
            assert forall|j: int| 0 <= j < longer.len() - 1 implies call_ensures(
                *mac,
                (
                    longer[j],
                    record@[window.first_sample + j],
                    (window.first_tap + j) as usize,
                    point,
                ),
                #[trigger] longer[j + 1],
            ) by {
                if j + 1 < sums.len() {
                    assert(longer[j + 1] == sums[j + 1]);
                }
            }
            sums = longer;
        }
        i += 1;
    }
    (*finish)(acc, point)
}

/// `samples` are what a wideband record reads at the tile rate.
pub open spec fn are_readings<
    V,
    A,
    T,
    F: Fn(A, V, usize, ResamplePoint) -> A,
    G: Fn(A, ResamplePoint) -> T,
>(
    mac: F,
    finish: G,
    zero: A,
    record: Seq<V>,
    sim_rate: int,
    tile_rate: int,
    samples: Seq<T>,
) -> bool {
    &&& samples.len() == resampled_length(record.len() as int, sim_rate, tile_rate)
    &&& forall|n: int|
        0 <= n < samples.len() ==> is_reading(
            mac,
            finish,
            zero,
            record,
            sim_rate,
            tile_rate,
            n,
            #[trigger] samples[n],
        )
}

/// Samples a wideband record at the tile rate. `mac(acc, x, tap, point)` adds record sample `x`
/// under a tap of the kernel, `finish` turns the sum into the output sample.
pub fn sample_adc_at_tile_rate<
    V: Copy,
    A: Copy,
    T,
    F: Fn(A, V, usize, ResamplePoint) -> A,
    G: Fn(A, ResamplePoint) -> T,
>(
    record: &Vec<V>,
    sim_rate_mhz: Micro,
    tile_rate_mhz: Micro,
    zero: A,
    mac: &F,
    finish: &G,
) -> (samples: Vec<T>)
    requires
        sim_rate_mhz > 0,
        record.len() <= i64::MAX,
        record.len() + RESAMPLER_TAPS <= usize::MAX,
        resampled_length(record.len() as int, sim_rate_mhz as int, tile_rate_mhz as int)
            <= usize::MAX,
        forall|acc: A, x: V, tap: usize, point: ResamplePoint| #[trigger]
            call_requires(*mac, (acc, x, tap, point)),
        forall|acc: A, point: ResamplePoint| #[trigger] call_requires(*finish, (acc, point)),
    ensures
        are_readings(
            *mac,
            *finish,
            zero,
            record@,
            sim_rate_mhz as int,
            tile_rate_mhz as int,
            samples@,
        ),
{
    let count: usize = resampled_len(record.len(), sim_rate_mhz, tile_rate_mhz);
    let mut samples: Vec<T> = Vec::new();
    let mut n: usize = 0;
    while n < count
        invariant
            sim_rate_mhz > 0,
            record.len() <= i64::MAX,
            record.len() + RESAMPLER_TAPS <= usize::MAX,
            count == resampled_length(
                record.len() as int,
                sim_rate_mhz as int,
                tile_rate_mhz as int,
            ),
            forall|acc: A, x: V, tap: usize, point: ResamplePoint| #[trigger]
                call_requires(*mac, (acc, x, tap, point)),
            forall|acc: A, point: ResamplePoint| #[trigger] call_requires(*finish, (acc, point)),
            n <= count,
            samples.len() == n,
            forall|j: int|
                0 <= j < n ==> is_reading(
                    *mac,
                    *finish,
                    zero,
                    record@,
                    sim_rate_mhz as int,
                    tile_rate_mhz as int,
                    j,
                    #[trigger] samples[j],
                ),
        decreases count - n,
    {
        let sample: T = read_at(record, n, sim_rate_mhz, tile_rate_mhz, zero, mac, finish);
        samples.push(sample);
        n += 1;
    }
    samples
}

/// Away from the ends of the record every tap of the kernel meets a sample, and only there.
pub proof fn interior_points_use_every_tap(
    n: int,
    len: int,
    sim_rate: int,
    tile_rate: int,
    window: TapWindow,
)
    requires
        0 < sim_rate,
        0 < tile_rate,
        0 <= n < resampled_length(len, sim_rate, tile_rate),
        0 <= len,
        is_window(window, position(n, sim_rate) / tile_rate, len, RESAMPLER_TAPS as int),
    ensures
        point_of(n, len, sim_rate, tile_rate).interior <==> window.count == RESAMPLER_TAPS,
{
    centre_is_in_record(n, len, sim_rate, tile_rate);
}

/// The start of a record is read as it is within a longer one, as far as the kernel stays inside:
/// the read point is the same, and so are the samples under the kernel.
pub proof fn longer_records_read_alike(
    n: int,
    len: int,
    longer: int,
    sim_rate: int,
    tile_rate: int,
    window: TapWindow,
)
    requires
        0 < sim_rate,
        0 < tile_rate,
        0 <= len <= longer,
        0 <= n < resampled_length(len, sim_rate, tile_rate),
        point_of(n, len, sim_rate, tile_rate).interior,
        is_window(window, position(n, sim_rate) / tile_rate, len, RESAMPLER_TAPS as int),
    ensures
        point_of(n, longer, sim_rate, tile_rate) == point_of(n, len, sim_rate, tile_rate),
        is_window(window, position(n, sim_rate) / tile_rate, longer, RESAMPLER_TAPS as int),
{
    centre_is_in_record(n, len, sim_rate, tile_rate);
}

// ---------------------------------------------------------------------------
// Mixing
// ---------------------------------------------------------------------------

/// The frequency a block shifts its samples down by, in MHz; none while the mixer is bypassed.
/// A coarse mixer shifts by its quarters of the sample rate, a fine mixer by its resolved NCO.
pub open spec fn mixer_shift_of(block: AdcBlock, tile: AdcTile) -> Option<int> {
    match block.mixer_mode {
        MixerMode::Bypass => None,
        MixerMode::CoarseMix(freq) => Some(freq.quarters() * (tile.sample_rate_gsps * 250)),
        MixerMode::FineMix => Some(
            resolved_nco(
                block.nco_freq_mhz as int,
                tile.sample_rate_gsps * 1000,
                block.nyquist_zone.number() % 2 == 0,
            ),
        ),
    }
}

/// The frequency a block shifts its samples down by, in MHz; none while the mixer is bypassed.
pub fn mixer_shift(block: &AdcBlock, tile: &AdcTile) -> (shift: Option<Micro>)
    requires
        rate_in_range(tile.sample_rate_gsps),
    ensures
        shift is Some <==> mixer_shift_of(*block, *tile) is Some,
        shift is Some ==> shift->0 == mixer_shift_of(*block, *tile)->0,
{
    match block.mixer_mode {
        MixerMode::Bypass => None,
        MixerMode::CoarseMix(freq) => {
            let quarter: Micro = tile.sample_rate_gsps * 250;
            let k: i64 = freq.shift_quarters();
            assert(-500_000_000_000_000 <= k * quarter <= 500_000_000_000_000) by (nonlinear_arith)
                requires
                    -1 <= k <= 2,
                    -250_000_000_000_000 <= quarter <= 250_000_000_000_000,
            ;
            Some(k * quarter)
        },
        MixerMode::FineMix => Some(
            resolve_nco_freq(
                block.nco_freq_mhz,
                tile.sample_rate_mhz(),
                block.nyquist_zone.is_even(),
            ),
        ),
    }
}

/// No mixer ever shifts by more than half the sample rate.
pub proof fn mixer_shift_is_in_band(block: AdcBlock, tile: AdcTile)
    requires
        tile.sample_rate_gsps > 0,
        mixer_shift_of(block, tile) is Some,
    ensures
        -(tile.sample_rate_gsps * 1000) <= 2 * mixer_shift_of(block, tile)->0
            <= tile.sample_rate_gsps * 1000,
{
    match block.mixer_mode {
        MixerMode::Bypass => {},
        MixerMode::CoarseMix(freq) => {
            let quarter = tile.sample_rate_gsps * 250;
            let k = freq.quarters();
            assert(-4 * quarter <= 2 * (k * quarter) <= 4 * quarter) by (nonlinear_arith)
                requires
                    -1 <= k <= 2,
                    quarter > 0,
            ;
        },
        MixerMode::FineMix => {
            crate::rfdc::resolved_nco_is_in_band(
                block.nco_freq_mhz as int,
                tile.sample_rate_gsps * 1000,
                block.nyquist_zone.number() % 2 == 0,
            );
        },
    }
}

/// A tuned block lands its target on zero, the right way round: the mixer shifts by a frequency
/// that differs from the target by whole sample rates.
pub proof fn tuned_block_lands_target_on_zero(block: AdcBlock, tile: AdcTile, target: Micro)
    requires
        rate_in_range(tile.sample_rate_gsps),
        tile.sample_rate_gsps > 0,
        target > 0,
    ensures
        ({
            let shift = mixer_shift_of(block.tuned_to(tile.sample_rate_gsps, target), tile);
            &&& shift is Some
            &&& exists|k: int| target == shift->0 + #[trigger] (k * (tile.sample_rate_gsps * 1000))
        }),
{
    let tuned = block.tuned_to(tile.sample_rate_gsps, target);
    tuned_nco_passes_through(tile, target, tuned.nyquist_zone.number() % 2 == 0);
    tuned_alias_is_an_alias(tile, target);
}

/// What the down-converter takes in and hands on.
#[derive(Clone, Copy, Debug, PartialEq, Eq, Structural)]
pub enum DataPath {
    RealToReal,
    RealToIq,
    IqToIq,
    ComplexToReal,
}

impl DataPath {
    /// Whether I/Q comes out.
    pub fn delivers_iq(self) -> (iq: bool)
        ensures
            iq == (self == DataPath::RealToIq || self == DataPath::IqToIq),
    {
        matches!(self, DataPath::RealToIq | DataPath::IqToIq)
    }
}

/// Scaling applied after the mixer.
#[derive(Clone, Copy, Debug, PartialEq, Eq, Structural)]
pub enum FineMixerScale {
    Auto,
    OnePointZero,
    ZeroPointSeven,
}

/// The scale a mixer runs at: one, or one over the square root of two.
#[derive(Clone, Copy, Debug, PartialEq, Eq, Structural)]
pub enum MixerGain {
    Unity,
    HalfPower,
}

/// Data path and scaling of a block's down-converter.
#[derive(Clone, Copy, Debug, PartialEq, Eq, Structural)]
pub struct DdcSettings {
    pub path: DataPath,
    pub scale: FineMixerScale,
}

impl Default for DdcSettings {
    fn default() -> (settings: Self)
        ensures
            settings.path == DataPath::RealToIq,
            settings.scale == FineMixerScale::Auto,
    {
        DdcSettings { path: DataPath::RealToIq, scale: FineMixerScale::Auto }
    }
}

impl DdcSettings {
    pub open spec fn gain(self) -> MixerGain {
        match self.scale {
            FineMixerScale::OnePointZero => MixerGain::Unity,
            FineMixerScale::ZeroPointSeven => MixerGain::HalfPower,
            FineMixerScale::Auto => if self.path == DataPath::IqToIq {
                MixerGain::HalfPower
            } else {
                MixerGain::Unity
            },
        }
    }

    /// The scale the mixer runs at. Left to itself it halves the power of a complex-to-complex
    /// path, whose output could otherwise overflow, and of no other.
    pub fn mixer_gain(self) -> (gain: MixerGain)
        ensures
            gain == self.gain(),
    {
        match self.scale {
            FineMixerScale::OnePointZero => MixerGain::Unity,
            FineMixerScale::ZeroPointSeven => MixerGain::HalfPower,
            FineMixerScale::Auto => {
                if matches!(self.path, DataPath::IqToIq) {
                    MixerGain::HalfPower
                } else {
                    MixerGain::Unity
                }
            },
        }
    }
}

// ---------------------------------------------------------------------------
// The plan
// ---------------------------------------------------------------------------

/// Lengths and decisions of one capture.
#[derive(Clone, Copy, Debug, PartialEq, Eq, Structural)]
pub struct CapturePlan {
    /// Samples of the wideband record.
    pub input_len: usize,
    /// Transform length and zero-pad factor of the wideband spectra.
    pub wide_fft: usize,
    pub wide_pad: usize,
    /// Samples at the tile rate, and transform length and pad factor of the spectra there.
    pub tile_len: usize,
    pub tile_fft: usize,
    pub tile_pad: usize,
    /// Samples after decimation and settling.
    pub output_len: usize,
    /// Output bins asked for, samples the output transform consumes, and its pad factor.
    pub output_bins_requested: usize,
    pub output_bins_analysed: usize,
    pub output_pad: usize,
    /// Whether the output is I/Q, whose spectrum spans both sides of zero: the mixer must run on
    /// a path that delivers it.
    pub complex_output: bool,
    /// The frequency the mixer shifts down by, and its scale.
    pub mixer_shift_mhz: Option<Micro>,
    pub mixer_gain: MixerGain,
    /// Effective output sample rate in MHz.
    pub output_sample_rate_mhz: Ratio,
    /// Resolution bandwidth of the output spectrum in MHz: the output rate over the bins that
    /// were analysed, whatever was asked for. Zero if none were.
    pub output_rbw_mhz: Ratio,
    /// Window every spectrum is analysed with.
    pub window: FftWindow,
    /// Points of each spectrum, and of the axis it is drawn on.
    pub input_points: usize,
    pub folded_points: usize,
    pub post_mixer_points: usize,
    pub output_points: usize,
}

/// The resolution bandwidth of a transform of `bins` samples taken at a rate; zero if there are
/// none.
pub open spec fn resolution_of(rate: Ratio, bins: int) -> Ratio {
    if bins == 0 {
        Ratio { over: 0, under: 1 }
    } else {
        Ratio { over: rate.over, under: (rate.under * bins) as i128 }
    }
}

/// What the plan of a capture must be.
pub open spec fn is_plan(
    plan: CapturePlan,
    input_len: int,
    sim_rate: int,
    block: AdcBlock,
    tile: AdcTile,
    ddc: DdcSettings,
    warmup: int,
    analysis: SpectrumAnalysis,
) -> bool {
    let factor = block.decimation.value();
    let detail = analysis.detail;
    &&& plan.input_len == input_len
    &&& plan.wide_fft == analysis_length(input_len)
    &&& is_pad_factor(plan.wide_fft as int, plan.wide_pad as int)
    &&& plan.tile_len == resampled_length(input_len, sim_rate, tile.sample_rate_gsps * 1000)
    &&& plan.tile_fft == analysis_length(plan.tile_len as int)
    &&& is_pad_factor(plan.tile_fft as int, plan.tile_pad as int)
    &&& plan.output_len == decimated_length(plan.tile_len as int, factor, warmup)
    &&& plan.output_bins_requested == detail.bins()
    &&& plan.output_bins_analysed == 2 * ((if detail.bins() <= plan.output_len {
        detail.bins()
    } else {
        plan.output_len as int
    }) / 2)
    &&& is_pad_factor(plan.output_bins_analysed as int, plan.output_pad as int)
    &&& plan.complex_output == (block.mixer_mode != MixerMode::Bypass && (ddc.path
        == DataPath::RealToIq || ddc.path == DataPath::IqToIq))
    &&& plan.mixer_gain == ddc.gain()
    &&& plan.mixer_shift_mhz is Some <==> mixer_shift_of(block, tile) is Some
    &&& plan.mixer_shift_mhz is Some ==> plan.mixer_shift_mhz->0 == mixer_shift_of(block, tile)->0
    &&& plan.output_sample_rate_mhz == block.output_rate(tile.sample_rate_gsps)
    &&& plan.output_rbw_mhz == resolution_of(
        block.output_rate(tile.sample_rate_gsps),
        plan.output_bins_analysed as int,
    )
    &&& plan.window == analysis.window
    &&& plan.input_points == one_sided(
        transform_points(input_len, plan.wide_fft as int, plan.wide_pad as int),
    )
    &&& plan.folded_points == one_sided(
        transform_points(plan.tile_len as int, plan.tile_fft as int, plan.tile_pad as int),
    )
    &&& plan.post_mixer_points == sided(
        transform_points(plan.tile_len as int, plan.tile_fft as int, plan.tile_pad as int),
        plan.complex_output,
    )
    &&& plan.output_points == sided(
        transform_points(plan.output_len as int, detail.bins(), plan.output_pad as int),
        plan.complex_output,
    )
}

/// Points that are drawn of a transform: all of them for I/Q, the non-negative half for a real
/// signal.
pub open spec fn sided(points: int, complex: bool) -> int {
    if complex {
        points
    } else {
        one_sided(points)
    }
}

fn drawn_points(analysed: usize, pad: usize, complex: bool) -> (points: usize)
    requires
        analysed <= 32768,
        1 <= pad <= DISPLAY_FFT_SIZE,
    ensures
        points == sided(padded(analysed as int, pad as int), complex),
{
    assert(0 <= analysed * pad <= 32768 * 4096) by (nonlinear_arith)
        requires
            0 <= analysed <= 32768,
            1 <= pad <= 4096,
    ;
    let points: usize = analysed * pad;
    if complex || points == 0 {
        points
    } else {
        points / 2 + 1
    }
}

/// The points of a padded transform fit in memory.
proof fn padded_points_fit(n: int, size: int, pad: int)
    requires
        0 <= n <= size <= 32768,
        is_pad_factor(size, pad),
    ensures
        padded(n, pad) <= 32768 * 8192,
{
    if pad > 1 {
        let half = pad / 2;
        assert(half < 4096) by (nonlinear_arith)
            requires
                size * half < 4096,
                1 <= size,
        ;
        assert(n * pad <= 32768 * 8192) by (nonlinear_arith)
            requires
                0 <= n <= 32768,
                0 <= pad <= 8192,
        ;
    }
}

/// Plans the processing of a record of `input_len` samples through a block. `warmup` is the
/// settling time of the block's decimation cascade, in its output samples.
pub fn plan_capture(
    input_len: usize,
    sim_rate_mhz: Micro,
    block: &AdcBlock,
    tile: &AdcTile,
    ddc: DdcSettings,
    warmup: usize,
    analysis: SpectrumAnalysis,
) -> (plan: CapturePlan)
    requires
        sim_rate_mhz > 0,
        rate_in_range(tile.sample_rate_gsps),
        resampled_length(input_len as int, sim_rate_mhz as int, tile.sample_rate_gsps * 1000)
            <= usize::MAX,
    ensures
        is_plan(
            plan,
            input_len as int,
            sim_rate_mhz as int,
            *block,
            *tile,
            ddc,
            warmup as int,
            analysis,
        ),
{
    let wide_fft: usize = analysis_fft_size(input_len);
    let wide_pad: usize = display_pad_factor(wide_fft);
    let tile_len: usize = resampled_len(input_len, sim_rate_mhz, tile.sample_rate_mhz());
    let tile_fft: usize = analysis_fft_size(tile_len);
    let tile_pad: usize = display_pad_factor(tile_fft);
    let factor: u32 = block.decimation.factor();
    let output_len: usize = if factor <= 1 {
        tile_len
    } else {
        let whole: usize = tile_len / factor as usize;
        if warmup < whole {
            whole - warmup
        } else {
            0
        }
    };
    let requested: usize = analysis.detail.output_bins();
    let analysed: usize = analysed_len(requested, output_len);
    let output_pad: usize = display_pad_factor(analysed);
    let complex_output: bool = block.mixer_active() && ddc.path.delivers_iq();
    let output_sample_rate_mhz: Ratio = block.output_rate_mhz(tile.sample_rate_gsps);
    let output_rbw_mhz: Ratio = if analysed == 0 {
        Ratio { over: 0, under: 1 }
    } else {
        assert(0 <= output_sample_rate_mhz.under * analysed <= 40 * 32768) by (nonlinear_arith)
            requires
                0 <= output_sample_rate_mhz.under <= 40,
                0 <= analysed <= 32768,
        ;
        Ratio {
            over: output_sample_rate_mhz.over,
            under: output_sample_rate_mhz.under * analysed as i128,
        }
    };
    CapturePlan {
        input_len,
        wide_fft,
        wide_pad,
        tile_len,
        tile_fft,
        tile_pad,
        output_len,
        output_bins_requested: requested,
        output_bins_analysed: analysed,
        output_pad,
        complex_output,
        mixer_gain: ddc.mixer_gain(),
        mixer_shift_mhz: mixer_shift(block, tile),
        output_sample_rate_mhz,
        output_rbw_mhz,
        window: analysis.window,
        input_points: drawn_points(analysed_len(wide_fft, input_len), wide_pad, false),
        folded_points: drawn_points(analysed_len(tile_fft, tile_len), tile_pad, false),
        post_mixer_points: drawn_points(
            analysed_len(tile_fft, tile_len),
            tile_pad,
            complex_output,
        ),
        output_points: drawn_points(analysed, output_pad, complex_output),
    }
}

// ---------------------------------------------------------------------------
// The pipeline
// ---------------------------------------------------------------------------

/// What happens to the voltage at the pin before it is sampled, in this order.
#[derive(Clone, Copy, Debug, PartialEq, Eq, Structural)]
pub enum AnalogStage {
    /// The step attenuator.
    Attenuate,
    /// The analog bandwidth of the input.
    LimitBandwidth,
    /// The harmonic distortion of the input.
    Distort,
}

/// The spectra that are drawn of a capture.
#[derive(Clone, Copy, Debug, PartialEq, Eq, Structural)]
pub enum Pane {
    /// The voltage at the pin, before sampling.
    Input,
    /// What the converter puts out.
    Folded,
    /// What the mixer puts out, before correction and decimation.
    PostMixer,
    /// What the programmable logic receives.
    Output,
}

impl CapturePlan {
    /// Points of the spectrum in a pane.
    pub open spec fn points(&self, pane: Pane) -> usize {
        match pane {
            Pane::Input => self.input_points,
            Pane::Folded => self.folded_points,
            Pane::PostMixer => self.post_mixer_points,
            Pane::Output => self.output_points,
        }
    }

    /// The bin numbers a pane is drawn over, one for each point of its spectrum.
    pub fn axis(&self, pane: Pane) -> (axis: Vec<i128>)
        ensures
            axis.len() == self.points(pane),
            forall|i: int|
                0 <= i < axis.len() ==> #[trigger] axis[i] == if self.complex_output && (pane
                    == Pane::PostMixer || pane == Pane::Output) {
                    i - axis.len() as int / 2
                } else {
                    i
                },
    {
        match pane {
            Pane::Input => axis_bins(self.input_points, false),
            Pane::Folded => axis_bins(self.folded_points, false),
            Pane::PostMixer => axis_bins(self.post_mixer_points, self.complex_output),
            Pane::Output => axis_bins(self.output_points, self.complex_output),
        }
    }
}

/// The arithmetic of the resampler: `accumulate(acc, x, tap, point)` adds a record sample under
/// a tap of the kernel, starting from `zero`; `finish` turns the sum into a sample.
pub struct Sampler<A, F, G> {
    pub zero: A,
    pub accumulate: F,
    pub finish: G,
}

impl<A, F, G> Sampler<A, F, G> {
    /// The arithmetic can be done on any values.
    pub open spec fn ready<V>(&self) -> bool where
        F: Fn(A, V, usize, ResamplePoint) -> A,
        G: Fn(A, ResamplePoint) -> V,
     {
        &&& forall|acc: A, x: V, tap: usize, point: ResamplePoint| #[trigger]
            call_requires(self.accumulate, (acc, x, tap, point))
        &&& forall|acc: A, point: ResamplePoint| #[trigger]
            call_requires(self.finish, (acc, point))
    }
}

/// The arithmetic of the converter's imperfections, as
/// [`crate::adc::apply_digital_non_idealities`] takes it.
pub struct Digitiser<N, S, C, Q> {
    pub noise: N,
    pub spur: S,
    pub clip: C,
    pub quantise: Q,
}

impl<N, S, C, Q> Digitiser<N, S, C, Q> {
    /// The arithmetic can be done on any values.
    pub open spec fn ready<V>(&self) -> bool where
        N: Fn(usize, V) -> V,
        S: Fn(V, (i8, i8)) -> V,
        C: Fn(V) -> (V, bool),
        Q: Fn(V, i64) -> V,
     {
        &&& forall|i: usize, v: V| #[trigger] call_requires(self.noise, (i, v))
        &&& forall|v: V, signs: (i8, i8)| #[trigger] call_requires(self.spur, (v, signs))
        &&& forall|v: V| #[trigger] call_requires(self.clip, (v,))
        &&& forall|v: V, half: i64| #[trigger] call_requires(self.quantise, (v, half))
    }
}

/// The arithmetic of the down-converter: `mix(plan, i, v)` turns sample `i` by the mixer's shift
/// and scales it, `correct` is the quadrature correction, and `mac` the multiply-accumulate of
/// the decimation filters, starting from `zero`.
pub struct DownConverter<Z, X, R, M> {
    pub zero: Z,
    pub mix: X,
    pub correct: R,
    pub mac: M,
}

impl<Z, X, R, M> DownConverter<Z, X, R, M> {
    /// The arithmetic can be done on any values.
    pub open spec fn ready<V, T>(&self) -> bool where
        X: Fn(&CapturePlan, usize, V) -> Z,
        R: Fn(Z) -> Z,
        M: Fn(Z, Z, T) -> Z,
     {
        &&& forall|plan: &CapturePlan, i: usize, v: V| #[trigger]
            call_requires(self.mix, (plan, i, v))
        &&& forall|z: Z| #[trigger] call_requires(self.correct, (z,))
        &&& forall|acc: Z, x: Z, tap: T| #[trigger] call_requires(self.mac, (acc, x, tap))
    }
}

/// The arithmetic of the spectra: for voltages, and for I/Q, what `shape` and `levels` are to
/// [`crate::spectrum::compute_spectrum_padded`] and its one-sided twin.
pub struct Analyser<V, WV, FV, WZ, FZ, HZ, G> {
    pub zero: V,
    pub shape: WV,
    /// The non-negative bins of voltages.
    pub levels: FV,
    pub iq_shape: WZ,
    /// All bins of I/Q.
    pub iq_levels: FZ,
    /// The non-negative bins of I/Q.
    pub iq_half_levels: HZ,
    pub lift: G,
}

impl<V, WV, FV, WZ, FZ, HZ, G> Analyser<V, WV, FV, WZ, FZ, HZ, G> {
    /// The arithmetic can be done on any values, and gives one level for each bin.
    pub open spec fn ready<Z, L>(&self) -> bool where
        WV: Fn(FftWindow, usize, usize, V) -> V,
        FV: Fn(FftWindow, Vec<V>, usize) -> Vec<L>,
        WZ: Fn(FftWindow, usize, usize, Z) -> Z,
        FZ: Fn(FftWindow, Vec<Z>, usize) -> Vec<L>,
        HZ: Fn(FftWindow, Vec<Z>, usize) -> Vec<L>,
        G: Fn(L) -> L,
     {
        &&& forall|w: FftWindow, i: usize, n: usize, x: V| #[trigger]
            call_requires(self.shape, (w, i, n, x))
        &&& forall|w: FftWindow, buffer: Vec<V>, n: usize| #[trigger]
            call_requires(self.levels, (w, buffer, n))
        &&& forall|w: FftWindow, buffer: Vec<V>, n: usize, bins: Vec<L>| #[trigger]
            call_ensures(self.levels, (w, buffer, n), bins) ==> bins.len() == one_sided(
                buffer.len() as int,
            )
        &&& forall|w: FftWindow, i: usize, n: usize, x: Z| #[trigger]
            call_requires(self.iq_shape, (w, i, n, x))
        &&& forall|w: FftWindow, buffer: Vec<Z>, n: usize| #[trigger]
            call_requires(self.iq_levels, (w, buffer, n))
        &&& forall|w: FftWindow, buffer: Vec<Z>, n: usize, bins: Vec<L>| #[trigger]
            call_ensures(self.iq_levels, (w, buffer, n), bins) ==> bins.len() == buffer.len()
        &&& forall|w: FftWindow, buffer: Vec<Z>, n: usize| #[trigger]
            call_requires(self.iq_half_levels, (w, buffer, n))
        &&& forall|w: FftWindow, buffer: Vec<Z>, n: usize, bins: Vec<L>| #[trigger]
            call_ensures(self.iq_half_levels, (w, buffer, n), bins) ==> bins.len() == one_sided(
                buffer.len() as int,
            )
        &&& forall|x: L| #[trigger] call_requires(self.lift, (x,))
    }

    /// `spectrum` is the spectrum of a record of voltages.
    pub open spec fn is_real_pane<L>(
        &self,
        window: FftWindow,
        fft_size: int,
        pad: int,
        record: Seq<V>,
        spectrum: Seq<L>,
    ) -> bool where
        WV: Fn(FftWindow, usize, usize, V) -> V,
        FV: Fn(FftWindow, Vec<V>, usize) -> Vec<L>,
        G: Fn(L) -> L,
     {
        is_one_sided_spectrum(
            self.shape,
            self.levels,
            self.lift,
            window,
            record,
            fft_size,
            pad,
            self.zero,
            spectrum,
        )
    }

    /// `spectrum` is the spectrum of a record of I/Q: two-sided if the output is I/Q, one-sided
    /// if it carries a real signal.
    pub open spec fn is_iq_pane<Z, L>(
        &self,
        complex: bool,
        window: FftWindow,
        fft_size: int,
        pad: int,
        zero: Z,
        record: Seq<Z>,
        spectrum: Seq<L>,
    ) -> bool where
        WZ: Fn(FftWindow, usize, usize, Z) -> Z,
        FZ: Fn(FftWindow, Vec<Z>, usize) -> Vec<L>,
        HZ: Fn(FftWindow, Vec<Z>, usize) -> Vec<L>,
        G: Fn(L) -> L,
     {
        if complex {
            is_spectrum(
                self.iq_shape,
                self.iq_levels,
                window,
                record,
                fft_size,
                pad,
                zero,
                spectrum,
            )
        } else {
            is_one_sided_spectrum(
                self.iq_shape,
                self.iq_half_levels,
                self.lift,
                window,
                record,
                fft_size,
                pad,
                zero,
                spectrum,
            )
        }
    }

    fn iq_pane<Z: Copy, L: Copy>(
        &self,
        complex: bool,
        window: FftWindow,
        fft_size: usize,
        pad: usize,
        zero: Z,
        record: &Vec<Z>,
    ) -> (spectrum: Vec<L>) where
        WV: Fn(FftWindow, usize, usize, V) -> V,
        FV: Fn(FftWindow, Vec<V>, usize) -> Vec<L>,
        WZ: Fn(FftWindow, usize, usize, Z) -> Z,
        FZ: Fn(FftWindow, Vec<Z>, usize) -> Vec<L>,
        HZ: Fn(FftWindow, Vec<Z>, usize) -> Vec<L>,
        G: Fn(L) -> L,

        requires
            self.ready::<Z, L>(),
            transform_points(record.len() as int, fft_size as int, pad as int) <= usize::MAX,
        ensures
            self.is_iq_pane(
                complex,
                window,
                fft_size as int,
                pad as int,
                zero,
                record@,
                spectrum@,
            ),
    {
        if complex {
            compute_spectrum_padded(
                record,
                fft_size,
                window,
                pad,
                zero,
                &self.iq_shape,
                &self.iq_levels,
            ).0
        } else {
            compute_spectrum_positive_padded(
                record,
                fft_size,
                window,
                pad,
                zero,
                &self.iq_shape,
                &self.iq_half_levels,
                &self.lift,
            ).0
        }
    }
}

/// `mixed` is a record after the mixer, sample by sample.
pub open spec fn are_mixed<V, Z, X: Fn(&CapturePlan, usize, V) -> Z>(
    mix: X,
    plan: CapturePlan,
    record: Seq<V>,
    mixed: Seq<Z>,
) -> bool {
    &&& mixed.len() == record.len()
    &&& forall|i: int|
        0 <= i < record.len() ==> call_ensures(
            mix,
            (&plan, i as usize, record[i]),
            #[trigger] mixed[i],
        )
}

fn mix_record<V: Copy, Z, X: Fn(&CapturePlan, usize, V) -> Z>(
    plan: &CapturePlan,
    record: &Vec<V>,
    mix: &X,
) -> (mixed: Vec<Z>)
    requires
        forall|plan: &CapturePlan, i: usize, v: V| #[trigger] call_requires(*mix, (plan, i, v)),
    ensures
        are_mixed(*mix, *plan, record@, mixed@),
{
    let mut mixed: Vec<Z> = Vec::new();
    let mut i: usize = 0;
    while i < record.len()
        invariant
            forall|plan: &CapturePlan, i: usize, v: V| #[trigger]
                call_requires(*mix, (plan, i, v)),
            i <= record.len(),
            mixed.len() == i,
            forall|j: int|
                0 <= j < i ==> call_ensures(
                    *mix,
                    (plan, j as usize, record[j]),
                    #[trigger] mixed[j],
                ),
        decreases record.len() - i,
    {
        let z: Z = (*mix)(plan, i, record[i]);
        mixed.push(z);
        i += 1;
    }
    mixed
}

/// `corrected` is a record after the quadrature correction, sample by sample.
pub open spec fn are_corrected<Z, R: Fn(Z) -> Z>(
    correct: R,
    record: Seq<Z>,
    corrected: Seq<Z>,
) -> bool {
    &&& corrected.len() == record.len()
    &&& forall|i: int|
        0 <= i < record.len() ==> call_ensures(correct, (record[i],), #[trigger] corrected[i])
}

fn correct_record<Z: Copy, R: Fn(Z) -> Z>(record: &Vec<Z>, correct: &R) -> (corrected: Vec<Z>)
    requires
        forall|z: Z| #[trigger] call_requires(*correct, (z,)),
    ensures
        are_corrected(*correct, record@, corrected@),
{
    let mut corrected: Vec<Z> = Vec::new();
    let mut i: usize = 0;
    while i < record.len()
        invariant
            forall|z: Z| #[trigger] call_requires(*correct, (z,)),
            i <= record.len(),
            corrected.len() == i,
            forall|j: int|
                0 <= j < i ==> call_ensures(*correct, (record[j],), #[trigger] corrected[j]),
        decreases record.len() - i,
    {
        let z: Z = (*correct)(record[i]);
        corrected.push(z);
        i += 1;
    }
    corrected
}

/// A signal after each stage on its way from the pin to the programmable logic.
pub struct Passage<V, Z> {
    pub attenuated: Vec<V>,
    pub limited: Vec<V>,
    pub distorted: Vec<V>,
    /// Sampled at the tile rate, which folds every Nyquist zone into the first.
    pub sampled: Vec<V>,
    /// With noise and spurs, clipped and quantised.
    pub digital: Vec<V>,
    /// Whether a sample ran out of the converter's range.
    pub overrange: bool,
    pub mixed: Vec<Z>,
    pub corrected: Vec<Z>,
    pub decimated: Vec<Z>,
}

/// The stages make `passage` of `input`, one after the other: attenuation, analog bandwidth,
/// distortion, sampling, digitising, mixing, correction, decimation.
pub open spec fn is_passage<
    V,
    Z,
    T,
    A,
    P: Fn(AnalogStage, Vec<V>) -> Vec<V>,
    F: Fn(A, V, usize, ResamplePoint) -> A,
    G: Fn(A, ResamplePoint) -> V,
    N: Fn(usize, V) -> V,
    S: Fn(V, (i8, i8)) -> V,
    C: Fn(V) -> (V, bool),
    Q: Fn(V, i64) -> V,
    X: Fn(&CapturePlan, usize, V) -> Z,
    R: Fn(Z) -> Z,
    M: Fn(Z, Z, T) -> Z,
>(
    analog: P,
    sampler: Sampler<A, F, G>,
    digitiser: Digitiser<N, S, C, Q>,
    converter: DownConverter<Z, X, R, M>,
    chain: DecimationChain<T>,
    plan: CapturePlan,
    sim_rate: int,
    block: AdcBlock,
    tile: AdcTile,
    input: Vec<V>,
    passage: Passage<V, Z>,
) -> bool {
    &&& call_ensures(analog, (AnalogStage::Attenuate, input), passage.attenuated)
    &&& call_ensures(analog, (AnalogStage::LimitBandwidth, passage.attenuated), passage.limited)
    &&& call_ensures(analog, (AnalogStage::Distort, passage.limited), passage.distorted)
    &&& are_readings(
        sampler.accumulate,
        sampler.finish,
        sampler.zero,
        passage.distorted@,
        sim_rate,
        tile.sample_rate_gsps * 1000,
        passage.sampled@,
    )
    &&& is_digital_record(
        impairments_of(block.non_idealities),
        digitiser.noise,
        digitiser.spur,
        digitiser.clip,
        digitiser.quantise,
        passage.sampled@,
        passage.digital@,
        passage.overrange,
    )
    &&& are_mixed(converter.mix, plan, passage.digital@, passage.mixed@)
    &&& are_corrected(converter.correct, passage.mixed@, passage.corrected@)
    &&& is_decimated(
        converter.mac,
        converter.zero,
        chain,
        block.decimation.value(),
        passage.corrected@,
        passage.decimated@,
    )
    &&& passage.distorted.len() == plan.input_len
    &&& passage.sampled.len() == plan.tile_len
    &&& passage.digital.len() == plan.tile_len
    &&& passage.mixed.len() == plan.tile_len
    &&& passage.corrected.len() == plan.tile_len
    &&& passage.decimated.len() == plan.output_len
}

/// A processed record.
pub struct Capture<Z, L> {
    pub plan: CapturePlan,
    /// The samples the programmable logic receives.
    pub signal: Vec<Z>,
    /// Whether a sample ran out of the converter's range.
    pub overrange: bool,
    pub input: Vec<L>,
    pub folded: Vec<L>,
    pub post_mixer: Vec<L>,
    pub output: Vec<L>,
}

impl<Z, L> Capture<Z, L> {
    /// The spectrum in a pane.
    pub open spec fn spectrum(&self, pane: Pane) -> Vec<L> {
        match pane {
            Pane::Input => self.input,
            Pane::Folded => self.folded,
            Pane::PostMixer => self.post_mixer,
            Pane::Output => self.output,
        }
    }

    /// The capture hands on the signal of a passage, and each of its spectra is taken where its
    /// pane looks: before sampling, after the converter, after the mixer and at the end.
    pub open spec fn is_taken_from<
        V,
        WV: Fn(FftWindow, usize, usize, V) -> V,
        FV: Fn(FftWindow, Vec<V>, usize) -> Vec<L>,
        WZ: Fn(FftWindow, usize, usize, Z) -> Z,
        FZ: Fn(FftWindow, Vec<Z>, usize) -> Vec<L>,
        HZ: Fn(FftWindow, Vec<Z>, usize) -> Vec<L>,
        U: Fn(L) -> L,
    >(
        &self,
        analyser: Analyser<V, WV, FV, WZ, FZ, HZ, U>,
        zero: Z,
        passage: Passage<V, Z>,
    ) -> bool {
        let plan = self.plan;
        &&& self.signal == passage.decimated
        &&& self.overrange == passage.overrange
        &&& analyser.is_real_pane(
            plan.window,
            plan.wide_fft as int,
            plan.wide_pad as int,
            passage.distorted@,
            self.input@,
        )
        &&& analyser.is_real_pane(
            plan.window,
            plan.tile_fft as int,
            plan.tile_pad as int,
            passage.digital@,
            self.folded@,
        )
        &&& analyser.is_iq_pane(
            plan.complex_output,
            plan.window,
            plan.tile_fft as int,
            plan.tile_pad as int,
            zero,
            passage.mixed@,
            self.post_mixer@,
        )
        &&& analyser.is_iq_pane(
            plan.complex_output,
            plan.window,
            plan.output_bins_requested as int,
            plan.output_pad as int,
            zero,
            passage.decimated@,
            self.output@,
        )
    }
}

/// Processes a wideband record of real voltage through a converter block: plans the capture,
/// passes the record through the stages in order, and takes the four spectra on the way. `chain`
/// is the decimation cascade of the block.
pub fn process_adc_block<
    V: Copy,
    Z: Copy,
    T: Copy,
    L: Copy,
    A: Copy,
    P: Fn(AnalogStage, Vec<V>) -> Vec<V>,
    F: Fn(A, V, usize, ResamplePoint) -> A,
    G: Fn(A, ResamplePoint) -> V,
    N: Fn(usize, V) -> V,
    S: Fn(V, (i8, i8)) -> V,
    C: Fn(V) -> (V, bool),
    Q: Fn(V, i64) -> V,
    X: Fn(&CapturePlan, usize, V) -> Z,
    R: Fn(Z) -> Z,
    M: Fn(Z, Z, T) -> Z,
    WV: Fn(FftWindow, usize, usize, V) -> V,
    FV: Fn(FftWindow, Vec<V>, usize) -> Vec<L>,
    WZ: Fn(FftWindow, usize, usize, Z) -> Z,
    FZ: Fn(FftWindow, Vec<Z>, usize) -> Vec<L>,
    HZ: Fn(FftWindow, Vec<Z>, usize) -> Vec<L>,
    U: Fn(L) -> L,
>(
    input: Vec<V>,
    sim_rate_mhz: Micro,
    block: &AdcBlock,
    tile: &AdcTile,
    ddc: DdcSettings,
    chain: &DecimationChain<T>,
    analysis: SpectrumAnalysis,
    analog: &P,
    sampler: &Sampler<A, F, G>,
    digitiser: &Digitiser<N, S, C, Q>,
    converter: &DownConverter<Z, X, R, M>,
    analyser: &Analyser<V, WV, FV, WZ, FZ, HZ, U>,
) -> (capture: Capture<Z, L>)
    requires
        sim_rate_mhz > 0,
        rate_in_range(tile.sample_rate_gsps),
        input.len() <= i64::MAX,
        input.len() + RESAMPLER_TAPS <= usize::MAX,
        resampled_length(input.len() as int, sim_rate_mhz as int, tile.sample_rate_gsps * 1000)
            <= usize::MAX,
        chain.wf(),
        chain.serves(block.decimation.value() as nat),
        chain.fits(
            resampled_length(
                input.len() as int,
                sim_rate_mhz as int,
                tile.sample_rate_gsps * 1000,
            ),
        ),
        forall|stage: AnalogStage, record: Vec<V>| #[trigger]
            call_requires(*analog, (stage, record)),
        forall|stage: AnalogStage, record: Vec<V>, out: Vec<V>| #[trigger]
            call_ensures(*analog, (stage, record), out) ==> out.len() == record.len(),
        sampler.ready::<V>(),
        digitiser.ready::<V>(),
        converter.ready::<V, T>(),
        analyser.ready::<Z, L>(),
    ensures
        is_plan(
            capture.plan,
            input.len() as int,
            sim_rate_mhz as int,
            *block,
            *tile,
            ddc,
            chain.warmup_out_samples as int,
            analysis,
        ),
        exists|passage: Passage<V, Z>| #[trigger]
            is_passage(
                *analog,
                *sampler,
                *digitiser,
                *converter,
                *chain,
                capture.plan,
                sim_rate_mhz as int,
                *block,
                *tile,
                input,
                passage,
            ) && capture.is_taken_from(*analyser, converter.zero, passage),
        capture.signal.len() == capture.plan.output_len,
        forall|pane: Pane| (#[trigger] capture.spectrum(pane)).len() == capture.plan.points(pane),
{
    let plan: CapturePlan = plan_capture(
        input.len(),
        sim_rate_mhz,
        block,
        tile,
        ddc,
        chain.warmup_out_samples,
        analysis,
    );
    let ghost pin = input;
    proof {
        let len = input.len() as int;
        let (wide, tiled, out) = (plan.wide_fft as int, plan.tile_fft as int, plan.output_len as int);
        padded_points_fit(analysed(wide, len), wide, plan.wide_pad as int);
        padded_points_fit(analysed(tiled, plan.tile_len as int), tiled, plan.tile_pad as int);
        let bins = analysed(analysis.detail.bins(), out);
        padded_points_fit(bins, bins, plan.output_pad as int);
    }
    let attenuated: Vec<V> = (*analog)(AnalogStage::Attenuate, input);
    let ghost first = attenuated;
    let limited: Vec<V> = (*analog)(AnalogStage::LimitBandwidth, attenuated);
    let ghost second = limited;
    let distorted: Vec<V> = (*analog)(AnalogStage::Distort, limited);
    let input_levels: Vec<L> = compute_spectrum_positive_padded(
        &distorted,
        plan.wide_fft,
        plan.window,
        plan.wide_pad,
        analyser.zero,
        &analyser.shape,
        &analyser.levels,
        &analyser.lift,
    ).0;
    let sampled: Vec<V> = sample_adc_at_tile_rate(
        &distorted,
        sim_rate_mhz,
        tile.sample_rate_mhz(),
        sampler.zero,
        &sampler.accumulate,
        &sampler.finish,
    );
    let (digital, overrange) = apply_digital_non_idealities(
        &sampled,
        &impairments(&block.non_idealities),
        &digitiser.noise,
        &digitiser.spur,
        &digitiser.clip,
        &digitiser.quantise,
    );
    let folded: Vec<L> = compute_spectrum_positive_padded(
        &digital,
        plan.tile_fft,
        plan.window,
        plan.tile_pad,
        analyser.zero,
        &analyser.shape,
        &analyser.levels,
        &analyser.lift,
    ).0;
    let mixed: Vec<Z> = mix_record(&plan, &digital, &converter.mix);
    let post_mixer: Vec<L> = analyser.iq_pane(
        plan.complex_output,
        plan.window,
        plan.tile_fft,
        plan.tile_pad,
        converter.zero,
        &mixed,
    );
    let corrected: Vec<Z> = correct_record(&mixed, &converter.correct);
    let decimated: Vec<Z> = apply_decimation(
        &corrected,
        block.decimation.factor(),
        chain,
        converter.zero,
        &converter.mac,
    );
    proof {
        sufficient_record_fills_the_bins(
            converter.mac,
            converter.zero,
            *chain,
            block.decimation.value() as nat,
            analysis.detail,
            corrected@,
            decimated@,
        );
    }
    let output: Vec<L> = analyser.iq_pane(
        plan.complex_output,
        plan.window,
        plan.output_bins_requested,
        plan.output_pad,
        converter.zero,
        &decimated,
    );
    let ghost passage = Passage {
        attenuated: first,
        limited: second,
        distorted,
        sampled,
        digital,
        overrange,
        mixed,
        corrected,
        decimated,
    };
    let capture = Capture {
        plan,
        signal: decimated,
        overrange,
        input: input_levels,
        folded,
        post_mixer,
        output,
    };
    proof {
        assert(is_passage(
            *analog,
            *sampler,
            *digitiser,
            *converter,
            *chain,
            plan,
            sim_rate_mhz as int,
            *block,
            *tile,
            pin,
            passage,
        ));
        assert(capture.is_taken_from(*analyser, converter.zero, passage));
        assert forall|pane: Pane|
            (#[trigger] capture.spectrum(pane)).len() == capture.plan.points(pane) by {
            match pane {
                Pane::Input => {},
                Pane::Folded => {},
                Pane::PostMixer => {},
                Pane::Output => {},
            }
        }
    }
    capture
}

/// A capture at least as long as the tile needs gives the output transform every bin it asks
/// for.
pub proof fn sufficient_capture_fills_the_bins(
    plan: CapturePlan,
    input_len: int,
    sim_rate: int,
    block: AdcBlock,
    tile: AdcTile,
    ddc: DdcSettings,
    warmup: int,
    analysis: SpectrumAnalysis,
)
    requires
        is_plan(plan, input_len, sim_rate, block, tile, ddc, warmup, analysis),
        0 <= warmup,
        plan.tile_len >= crate::spectrum::tile_samples_needed(
            block.decimation.value(),
            analysis.detail.bins(),
            warmup,
        ),
    ensures
        plan.output_bins_analysed == plan.output_bins_requested,
{
    let f = block.decimation.value();
    let bins = analysis.detail.bins();
    if f > 1 {
        needed_samples_decimate_to_the_bins(plan.tile_len as int, f, bins, warmup);
    } else {
        assert(bins * f == bins) by (nonlinear_arith)
            requires
                f == 1,
        ;
    }
    assert(plan.output_len >= bins);
}

// ---------------------------------------------------------------------------
// What a capture means
// ---------------------------------------------------------------------------

/// Sampling a record gives as many samples as fit into the time it lasts: one more would not.
/// Without a sample rate there are none.
pub proof fn samples_fit_into_the_record(len: int, sim_rate: int, tile_rate: int)
    requires
        0 <= len,
        0 < sim_rate,
    ensures
        ({
            let n = resampled_length(len, sim_rate, tile_rate);
            &&& tile_rate <= 0 ==> n == 0
            &&& tile_rate > 0 ==> 0 <= n && n * sim_rate <= len * tile_rate < (n + 1) * sim_rate
        }),
{
    if tile_rate > 0 {
        let x = len * tile_rate;
        assert(0 <= x) by (nonlinear_arith)
            requires
                0 <= len,
                0 < tile_rate,
                x == len * tile_rate,
        ;
        lemma_fundamental_div_mod(x, sim_rate);
        lemma_mod_bound(x, sim_rate);
        lemma_div_pos_is_pos(x, sim_rate);
        let n = x / sim_rate;
        assert(sim_rate * n == n * sim_rate) by (nonlinear_arith);
        assert((n + 1) * sim_rate == n * sim_rate + sim_rate) by (nonlinear_arith);
    }
}

/// A sample is read where it is in time: sample `n` lies `n` simulation periods per tile period into
/// the record, which is the middle of the kernel, plus the tabulated phase, plus what lies between
/// that phase and the next.
pub proof fn samples_are_read_where_they_are(n: int, len: int, sim_rate: int, tile_rate: int)
    requires
        0 < sim_rate,
        0 < tile_rate <= i64::MAX,
        0 <= len <= i64::MAX,
        0 <= n < resampled_length(len, sim_rate, tile_rate),
    ensures
        ({
            let point = point_of(n, len, sim_rate, tile_rate);
            &&& 0 <= point.phase < 4096
            &&& 0 <= point.between < tile_rate
            &&& 0 <= point.first + 16 < len
            &&& ((point.first + 16) * 4096 + point.phase) * tile_rate + point.between == n * sim_rate
                * 4096
            &&& point.interior <==> 0 <= point.first && point.first + 33 <= len
        }),
{
    let at = n * sim_rate;
    let (c, frac) = (at / tile_rate, at % tile_rate);
    centre_is_in_record(n, len, sim_rate, tile_rate);
    lemma_fundamental_div_mod(at, tile_rate);
    lemma_mod_bound(at, tile_rate);
    phase_is_in_table(frac, tile_rate);
    let x = frac * 4096;
    lemma_fundamental_div_mod(x, tile_rate);
    let (p, b) = (x / tile_rate, x % tile_rate);
    assert((c * 4096 + p) * tile_rate + b == at * 4096) by (nonlinear_arith)
        requires
            at == tile_rate * c + frac,
            x == frac * 4096,
            x == tile_rate * p + b,
    ;
}

/// Every sample of the record that lies under the kernel meets the tap that lies over it, and no
/// tap meets anything else.
pub proof fn kernel_meets_the_samples_under_it(
    n: int,
    len: int,
    sim_rate: int,
    tile_rate: int,
    window: TapWindow,
    tap: int,
)
    requires
        0 < sim_rate,
        0 < tile_rate <= i64::MAX,
        0 <= len <= i64::MAX,
        0 <= n < resampled_length(len, sim_rate, tile_rate),
        is_window(window, position(n, sim_rate) / tile_rate, len, 33),
        0 <= tap < 33,
    ensures
        ({
            let point = point_of(n, len, sim_rate, tile_rate);
            &&& window.first_sample - window.first_tap == point.first
            &&& (0 <= point.first + tap < len) <==> (window.first_tap <= tap < window.first_tap
                + window.count)
        }),
{
    centre_is_in_record(n, len, sim_rate, tile_rate);
}

/// A coarse mixer shifts by the share of the sample rate that its name says, and in that sense: a
/// quarter up, a quarter down, or half. No two of them shift alike, and the quarters are opposite.
/// A fine mixer shifts by its resolved NCO, and a bypassed one not at all.
pub proof fn mixers_shift_as_they_are_named(block: AdcBlock, tile: AdcTile, freq: CoarseMixFreq)
    requires
        rate_in_range(tile.sample_rate_gsps),
    ensures
        ({
            let fs = tile.sample_rate_gsps * 1000;
            let coarse = AdcBlock { mixer_mode: MixerMode::CoarseMix(freq), ..block };
            let shift = mixer_shift_of(coarse, tile);
            &&& shift is Some
            &&& freq == CoarseMixFreq::FsOver4 ==> 4 * shift->0 == fs
            &&& freq == CoarseMixFreq::MinusFsOver4 ==> 4 * shift->0 == -fs
            &&& freq == CoarseMixFreq::FsOver2 ==> 2 * shift->0 == fs
        }),
        mixer_shift_of((AdcBlock { mixer_mode: MixerMode::Bypass, ..block }), tile) is None,
        ({
            let fs = tile.sample_rate_gsps * 1000;
            let fine = AdcBlock { mixer_mode: MixerMode::FineMix, ..block };
            let shift = mixer_shift_of(fine, tile);
            let nco = block.nco_freq_mhz;
            &&& shift is Some
            &&& -fs <= 2 * nco <= fs ==> shift->0 == nco
            &&& fs > 0 && !(-fs <= 2 * nco <= fs) ==> exists|k: int|
                nco == (if block.nyquist_zone.number() % 2 == 0 {
                    -shift->0
                } else {
                    shift->0
                }) + #[trigger] (k * fs)
        }),
{
    let fs = tile.sample_rate_gsps * 1000;
    let nco = block.nco_freq_mhz as int;
    let even = block.nyquist_zone.number() % 2 == 0;
    if fs > 0 && !(-fs <= 2 * nco <= fs) {
        resolved_nco_is_an_alias(nco, fs, even);
        let r = resolved_nco(nco, fs, even);
        if even {
            let k = choose|k: int| nco == -r + #[trigger] (k * fs);
            assert(nco == -r + k * fs);
        } else {
            let k = choose|k: int| nco == r + #[trigger] (k * fs);
            assert(nco == r + k * fs);
        }
    }
}

/// A quarter up and a quarter down are different shifts, each the other's opposite.
pub proof fn coarse_quarters_are_opposite(block: AdcBlock, tile: AdcTile)
    requires
        rate_in_range(tile.sample_rate_gsps),
        tile.sample_rate_gsps > 0,
    ensures
        ({
            let up = mixer_shift_of(
                AdcBlock { mixer_mode: MixerMode::CoarseMix(CoarseMixFreq::FsOver4), ..block },
                tile,
            );
            let down = mixer_shift_of(
                AdcBlock { mixer_mode: MixerMode::CoarseMix(CoarseMixFreq::MinusFsOver4), ..block },
                tile,
            );
            &&& up->0 == -down->0
            &&& up->0 > 0
        }),
{
    mixers_shift_as_they_are_named(block, tile, CoarseMixFreq::FsOver4);
    mixers_shift_as_they_are_named(block, tile, CoarseMixFreq::MinusFsOver4);
}

/// A scale that is set is used on every path. Left to itself, a mixer halves the power of the path
/// that takes I/Q in and hands I/Q on, and of no other.
pub proof fn scales_are_kept(settings: DdcSettings)
    ensures
        settings.scale == FineMixerScale::OnePointZero ==> settings.gain() == MixerGain::Unity,
        settings.scale == FineMixerScale::ZeroPointSeven ==> settings.gain()
            == MixerGain::HalfPower,
        settings.scale == FineMixerScale::Auto && settings.path == DataPath::IqToIq
            ==> settings.gain() == MixerGain::HalfPower,
        settings.scale == FineMixerScale::Auto && settings.path != DataPath::IqToIq
            ==> settings.gain() == MixerGain::Unity,
{
}

/// The resolution bandwidth is what the bins that were analysed share the output rate into: as many
/// times it as there are bins is the rate. It does not depend on the bins that were asked for, and
/// is zero if none were analysed.
pub proof fn resolution_times_bins_is_the_rate(
    plan: CapturePlan,
    input_len: int,
    sim_rate: int,
    block: AdcBlock,
    tile: AdcTile,
    ddc: DdcSettings,
    warmup: int,
    analysis: SpectrumAnalysis,
)
    requires
        is_plan(plan, input_len, sim_rate, block, tile, ddc, warmup, analysis),
    ensures
        plan.output_rbw_mhz.wf(),
        plan.output_bins_analysed == 0 ==> plan.output_rbw_mhz.over == 0,
        plan.output_bins_analysed > 0 ==> plan.output_rbw_mhz.over * plan.output_bins_analysed
            * block.decimation.value() == tile.sample_rate_gsps * 1000 * plan.output_rbw_mhz.under,
        plan.output_bins_analysed <= plan.output_bins_requested,
        plan.output_bins_analysed <= plan.output_len,
        plan.output_bins_analysed + 1 >= plan.output_bins_requested || plan.output_bins_analysed + 1
            >= plan.output_len,
        plan.output_bins_analysed % 2 == 0,
{
    let (bins, f) = (plan.output_bins_analysed as int, block.decimation.value());
    let over = tile.sample_rate_gsps * 1000;
    assert(1 <= f <= 40);
    assert(0 <= bins <= 32768);
    if bins > 0 {
        assert(0 < f * bins <= 40 * 32768) by (nonlinear_arith)
            requires
                1 <= f <= 40,
                0 < bins <= 32768,
        ;
        assert(over * bins * f == over * (f * bins)) by (nonlinear_arith);
    }
}

/// A spectrum has two sides exactly if what it shows is I/Q: the mixer must run on a path that
/// delivers it. The panes before the mixer are of a real signal and have one.
pub proof fn only_iq_has_two_sides(
    plan: CapturePlan,
    input_len: int,
    sim_rate: int,
    block: AdcBlock,
    tile: AdcTile,
    ddc: DdcSettings,
    warmup: int,
    analysis: SpectrumAnalysis,
)
    requires
        is_plan(plan, input_len, sim_rate, block, tile, ddc, warmup, analysis),
        0 <= input_len,
    ensures
        block.mixer_mode == MixerMode::Bypass ==> !plan.complex_output,
        ddc.path == DataPath::RealToReal || ddc.path == DataPath::ComplexToReal
            ==> !plan.complex_output,
        block.mixer_mode != MixerMode::Bypass && (ddc.path == DataPath::RealToIq || ddc.path
            == DataPath::IqToIq) ==> plan.complex_output,
        !plan.complex_output ==> plan.post_mixer_points == plan.folded_points,
        plan.complex_output && plan.folded_points > 0 ==> plan.post_mixer_points == 2 * (
        plan.folded_points - 1),
        plan.window == analysis.window,
{
    let n = analysed(plan.tile_fft as int, plan.tile_len as int);
    let pad = plan.tile_pad as int;
    let points = padded(n, pad);
    let factor = if pad >= 1 {
        pad
    } else {
        1
    };
    assert(points % 2 == 0) by {
        let h = n / 2;
        assert(n == 2 * h);
        assert(points == 2 * (h * factor)) by (nonlinear_arith)
            requires
                points == n * factor,
                n == 2 * h,
        ;
    }
    assert(points >= 0) by (nonlinear_arith)
        requires
            points == n * factor,
            n >= 0,
            factor >= 1,
    ;
}

/// Each sample is mixed at its own place in the record, the first at zero, and nothing else has a say
/// in it; a correction does not even know the place.
pub proof fn samples_are_mixed_at_their_own_place<
    V,
    Z,
    X: Fn(&CapturePlan, usize, V) -> Z,
    R: Fn(Z) -> Z,
>(
    mix: X,
    correct: R,
    plan: CapturePlan,
    record: Seq<V>,
    mixed: Seq<Z>,
    corrected: Seq<Z>,
    i: usize,
)
    requires
        are_mixed(mix, plan, record, mixed),
        are_corrected(correct, mixed, corrected),
        i < record.len(),
    ensures
        mixed.len() == record.len(),
        corrected.len() == record.len(),
        call_ensures(mix, (&plan, i, record[i as int]), mixed[i as int]),
        call_ensures(correct, (mixed[i as int],), corrected[i as int]),
{
    assert(mixed[i as int] == mixed[i as int]);
    assert(call_ensures(mix, (&plan, (i as int) as usize, record[i as int]), mixed[i as int]));
    assert(corrected[i as int] == corrected[i as int]);
}

/// Whatever is received is drawn with at least as many points as the display wants, and with every
/// sample that was analysed.
pub proof fn outputs_fill_the_display(
    plan: CapturePlan,
    input_len: int,
    sim_rate: int,
    block: AdcBlock,
    tile: AdcTile,
    ddc: DdcSettings,
    warmup: int,
    analysis: SpectrumAnalysis,
)
    requires
        is_plan(plan, input_len, sim_rate, block, tile, ddc, warmup, analysis),
        plan.output_bins_analysed > 0,
    ensures
        plan.complex_output ==> plan.output_points >= 4096 && plan.output_points
            >= plan.output_bins_analysed,
        !plan.complex_output ==> plan.output_points >= 2049,
        plan.output_bins_requested == analysis.detail.bins(),
{
    let bins = plan.output_bins_analysed as int;
    padding_reaches_the_display(bins, plan.output_pad as int);
}

} // verus!
