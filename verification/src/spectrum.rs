//! How spectra are sized and laid out.

use vstd::prelude::*;
use vstd::string::StringExecFns;
use crate::decimation::ceil_div;
use crate::smooth::{is_cheapest, next_smooth_size, power, power_grows};
use crate::text::{decimal, numeral};
use crate::units::Micro;

verus! {

// ---------------------------------------------------------------------------
// Windows
// ---------------------------------------------------------------------------

/// FFT window functions for spectral analysis.
#[derive(Clone, Copy, Debug, PartialEq, Eq, Structural)]
pub enum FftWindow {
    Hanning,
    Hamming,
    BlackmanHarris,
    FlatTop,
    Rectangular,
}

/// Window the display starts on: its sidelobes keep a tone's leakage skirt off the trace.
pub const DEFAULT_DISPLAY_WINDOW: FftWindow = FftWindow::BlackmanHarris;

/// The outline of a window's leakage: main-lobe half-width in bins, the sidelobe plateau in dB
/// below the peak, where it ends, and the roll-off beyond it in dB per octave of distance.
#[derive(Clone, Copy, Debug, PartialEq, Eq, Structural)]
pub struct LeakageShape {
    pub lobe: Micro,
    pub plateau_db: Micro,
    pub plateau_to: Micro,
    pub rolloff_db: Micro,
}

/// Which part of a window's leakage a distance from the tone falls into.
#[derive(Clone, Copy, Debug, PartialEq, Eq, Structural)]
pub enum LeakageZone {
    /// Not separable from the tone itself.
    MainLobe,
    /// A constant level below the peak.
    Plateau { db: Micro },
    /// The plateau level, lowered by `rolloff_db` for every octave of `bins / from`.
    RollOff { db: Micro, rolloff_db: Micro, from: Micro },
}

impl FftWindow {
    pub const ALL: [FftWindow; 5] = [
        FftWindow::Hanning,
        FftWindow::Hamming,
        FftWindow::BlackmanHarris,
        FftWindow::FlatTop,
        FftWindow::Rectangular,
    ];

    pub open spec fn label_text(self) -> Seq<char> {
        match self {
            FftWindow::Hanning => "Hanning"@,
            FftWindow::Hamming => "Hamming"@,
            FftWindow::BlackmanHarris => "Blackman-Harris"@,
            FftWindow::FlatTop => "Flat-Top"@,
            FftWindow::Rectangular => "Rectangular"@,
        }
    }

    /// Name shown to the user.
    pub fn label(self) -> (text: &'static str)
        ensures
            text@ == self.label_text(),
    {
        match self {
            FftWindow::Hanning => "Hanning",
            FftWindow::Hamming => "Hamming",
            FftWindow::BlackmanHarris => "Blackman-Harris",
            FftWindow::FlatTop => "Flat-Top",
            FftWindow::Rectangular => "Rectangular",
        }
    }

    /// The mean of the window's coefficients, in hundred-millionths.
    pub open spec fn gain_e8(self) -> int {
        match self {
            FftWindow::Hanning => 50_000_000,
            FftWindow::Hamming => 54_000_000,
            FftWindow::BlackmanHarris => 35_875_000,
            FftWindow::FlatTop => 21_557_895,
            FftWindow::Rectangular => 100_000_000,
        }
    }

    /// The mean of the window's coefficients, in hundred-millionths.
    pub fn coherent_gain(self) -> (gain_e8: u32)
        ensures
            gain_e8 == self.gain_e8(),
    {
        match self {
            FftWindow::Hanning => 50_000_000,
            FftWindow::Hamming => 54_000_000,
            FftWindow::BlackmanHarris => 35_875_000,
            FftWindow::FlatTop => 21_557_895,
            FftWindow::Rectangular => 100_000_000,
        }
    }

    pub open spec fn leakage(self) -> LeakageShape {
        match self {
            FftWindow::Hanning => LeakageShape {
                lobe: 2_000_000,
                plateau_db: 31_500_000,
                plateau_to: 3_000_000,
                rolloff_db: 17_300_000,
            },
            FftWindow::Hamming => LeakageShape {
                lobe: 2_000_000,
                plateau_db: 42_700_000,
                plateau_to: 5_000_000,
                rolloff_db: 3_500_000,
            },
            FftWindow::BlackmanHarris => LeakageShape {
                lobe: 5_000_000,
                plateau_db: 92_000_000,
                plateau_to: 6_000_000,
                rolloff_db: 3_000_000,
            },
            FftWindow::FlatTop => LeakageShape {
                lobe: 6_000_000,
                plateau_db: 93_500_000,
                plateau_to: 7_000_000,
                rolloff_db: 0,
            },
            FftWindow::Rectangular => LeakageShape {
                lobe: 1_000_000,
                plateau_db: 13_300_000,
                plateau_to: 2_000_000,
                rolloff_db: 6_000_000,
            },
        }
    }

    /// The outline of the window's leakage.
    pub fn leakage_shape(self) -> (shape: LeakageShape)
        ensures
            shape == self.leakage(),
    {
        match self {
            FftWindow::Hanning => LeakageShape {
                lobe: 2_000_000,
                plateau_db: 31_500_000,
                plateau_to: 3_000_000,
                rolloff_db: 17_300_000,
            },
            FftWindow::Hamming => LeakageShape {
                lobe: 2_000_000,
                plateau_db: 42_700_000,
                plateau_to: 5_000_000,
                rolloff_db: 3_500_000,
            },
            FftWindow::BlackmanHarris => LeakageShape {
                lobe: 5_000_000,
                plateau_db: 92_000_000,
                plateau_to: 6_000_000,
                rolloff_db: 3_000_000,
            },
            FftWindow::FlatTop => LeakageShape {
                lobe: 6_000_000,
                plateau_db: 93_500_000,
                plateau_to: 7_000_000,
                rolloff_db: 0,
            },
            FftWindow::Rectangular => LeakageShape {
                lobe: 1_000_000,
                plateau_db: 13_300_000,
                plateau_to: 2_000_000,
                rolloff_db: 6_000_000,
            },
        }
    }

    /// The part of the leakage outline at a distance from the tone.
    pub open spec fn leakage_at(self, distance: int) -> LeakageZone {
        let shape = self.leakage();
        let d = if distance < 0 {
            -distance
        } else {
            distance
        };
        if d <= shape.lobe {
            LeakageZone::MainLobe
        } else if d <= shape.plateau_to {
            LeakageZone::Plateau { db: shape.plateau_db }
        } else {
            LeakageZone::RollOff {
                db: shape.plateau_db,
                rolloff_db: shape.rolloff_db,
                from: shape.plateau_to,
            }
        }
    }

    /// Which part of the leakage outline lies `bins` bins away from a tone, on either side.
    pub fn leakage_envelope_db(self, bins: Micro) -> (zone: LeakageZone)
        requires
            bins > i64::MIN,
        ensures
            zone == self.leakage_at(bins as int),
    {
        let shape: LeakageShape = self.leakage_shape();
        let distance: Micro = if bins < 0 {
            -bins
        } else {
            bins
        };
        if distance <= shape.lobe {
            LeakageZone::MainLobe
        } else if distance <= shape.plateau_to {
            LeakageZone::Plateau { db: shape.plateau_db }
        } else {
            LeakageZone::RollOff {
                db: shape.plateau_db,
                rolloff_db: shape.rolloff_db,
                from: shape.plateau_to,
            }
        }
    }
}

// ---------------------------------------------------------------------------
// Transform lengths
// ---------------------------------------------------------------------------

/// Shortest analysis FFT the ADC-rate spectra will use.
pub const ANALYSIS_FFT_SIZE: usize = 2048;

/// Longest analysis FFT the ADC-rate spectra will stretch to when the record allows it.
pub const ANALYSIS_FFT_MAX: usize = 16384;

/// Point count every spectrum is interpolated up to before it is drawn.
pub const DISPLAY_FFT_SIZE: usize = 4096;

/// Ceiling and floor on the wideband samples generated per capture.
pub const MAX_WIDEBAND_SAMPLES: usize = 524_288;

pub const MIN_WIDEBAND_SAMPLES: usize = 4_096;

/// The analysis length that a record supports: the shortest if the record is shorter still,
/// else the longest doubling of it that neither the record nor the maximum forbids.
pub open spec fn analysis_length(available: int) -> int {
    if available < 4096 {
        2048
    } else if available < 8192 {
        4096
    } else if available < 16384 {
        8192
    } else {
        16384
    }
}

/// Largest transform the available record supports, within the analysis FFT bounds.
pub fn analysis_fft_size(available: usize) -> (size: usize)
    ensures
        size == analysis_length(available as int),
{
    if available < ANALYSIS_FFT_SIZE {
        return ANALYSIS_FFT_SIZE;
    }
    let bound: usize = if available < ANALYSIS_FFT_MAX {
        available
    } else {
        ANALYSIS_FFT_MAX
    };
    let mut n: usize = ANALYSIS_FFT_SIZE;
    while n * 2 <= bound
        invariant
            bound <= 16384,
            bound == if available < 16384 {
                available
            } else {
                16384
            },
            available >= 2048,
            n == 2048 || n == 4096 || n == 8192 || n == 16384,
            n <= bound,
        decreases 16384 - n,
    {
        n = n * 2;
    }
    n
}

/// An analysis transform never outruns a record of at least the minimum length, and is a power
/// of two within its bounds.
pub proof fn analysis_length_fits(available: int)
    ensures
        ANALYSIS_FFT_SIZE <= analysis_length(available) <= ANALYSIS_FFT_MAX,
        available >= ANALYSIS_FFT_SIZE ==> analysis_length(available) <= available,
        exists|e: nat| analysis_length(available) == #[trigger] power(2, e),
{
    reveal_with_fuel(power, 15);
    assert(power(2, 11) == 2048);
    assert(power(2, 12) == 4096);
    assert(power(2, 13) == 8192);
    assert(power(2, 14) == 16384);
}

/// The analysis length is a power of two within its bounds, and no longer one would do: twice it
/// would be more than the record holds, or than a transform may be.
pub proof fn analysis_length_is_the_longest(available: int, other: nat)
    ensures
        ({
            let length = analysis_length(available);
            &&& 2048 <= length <= 16384
            &&& length <= available || length == 2048
            &&& 2048 <= power(2, other) <= 16384 && power(2, other) <= available ==> power(2, other)
                <= length
        }),
{
    analysis_length_fits(available);
    if power(2, other) <= 16384 {
        reveal_with_fuel(power, 16);
        assert(power(2, 15) == 32768);
        if other >= 15 {
            power_grows(2, 15, other);
        }
    }
}

/// Padding lifts any transform to the display size, but never to twice it unless it is that long
/// by itself.
pub proof fn padding_reaches_the_display(n: int, pad: int)
    requires
        n > 0,
        is_pad_factor(n, pad),
    ensures
        padded(n, pad) >= 4096,
        padded(n, pad) >= n,
        n < 4096 ==> padded(n, pad) < 8192,
        n >= 4096 ==> padded(n, pad) == n,
        padded(n, pad) % n == 0,
{
    if pad > 1 {
        let h = pad / 2;
        let e = choose|e: nat| pad == #[trigger] power(2, e);
        assert(e > 0);
        assert(pad == 2 * power(2, (e - 1) as nat));
        assert(n * pad == 2 * (n * h)) by (nonlinear_arith)
            requires
                pad == 2 * h,
        ;
        assert(n * pad >= n) by (nonlinear_arith)
            requires
                n > 0,
                pad >= 1,
        ;
        assert(n * h >= n) by (nonlinear_arith)
            requires
                n > 0,
                h >= 1,
        ;
    } else {
        power_is_at_least_one(pad);
        assert(n * pad == n) by (nonlinear_arith)
            requires
                pad == 1,
        ;
    }
    assert((n * pad) % n == 0) by {
        vstd::arithmetic::div_mod::lemma_mod_multiples_basic(pad, n);
        assert(pad * n == n * pad) by (nonlinear_arith);
    }
}

proof fn power_is_at_least_one(pad: int)
    requires
        exists|e: nat| pad == #[trigger] power(2, e),
    ensures
        pad >= 1,
{
    let e = choose|e: nat| pad == #[trigger] power(2, e);
    power_grows(2, 0, e);
}

/// A transform takes as many samples as it asked for or there are, an even number; it leaves at
/// most one of them.
pub proof fn analysis_takes_what_it_can(fft_size: int, available: int)
    requires
        0 <= fft_size,
        0 <= available,
    ensures
        ({
            let n = analysed(fft_size, available);
            &&& n % 2 == 0
            &&& 0 <= n <= fft_size
            &&& n <= available
            &&& n + 1 >= fft_size || n + 1 >= available
        }),
{
}

/// Padding by a factor repeats the length that often; without a factor it changes nothing.
pub proof fn padding_multiplies(n: int, pad: int)
    requires
        pad >= 1,
    ensures
        padded(n, 0) == n,
        padded(n, 1) == n,
        padded(n, pad + 1) == padded(n, pad) + n,
{
    assert(n * 1 == n) by (nonlinear_arith);
    assert(n * (pad + 1) == n * pad + n) by (nonlinear_arith);
}

/// A transform of an even length has a bin for zero, one for half the sample rate, and pairs of
/// bins between them: the one-sided half and its mirror image make up the whole.
pub proof fn halves_make_the_whole(points: int)
    requires
        points >= 0,
        points % 2 == 0,
    ensures
        points > 0 ==> one_sided(points) + (one_sided(points) - 2) == points,
        points == 0 ==> one_sided(points) == 0,
{
}

/// Only the bins that have a mirror image are lifted: the first and the last stay as they are,
/// every other is what `lift` makes of it.
pub proof fn folding_spares_the_ends<T, F: Fn(T) -> T>(
    lift: F,
    bins: Seq<T>,
    folded: Seq<T>,
    i: int,
)
    requires
        is_folded(lift, bins, folded),
        0 <= i < bins.len(),
    ensures
        folded.len() == bins.len(),
        folded[0] == bins[0],
        folded.last() == bins.last(),
        i != 0 && i != bins.len() - 1 ==> call_ensures(lift, (bins[i],), folded[i]),
{
    assert(folded[0] == bins[0]);
    assert(folded[bins.len() - 1] == bins[bins.len() - 1]);
}

/// `pad` is the least power of two that lifts `n` points to the display size.
pub open spec fn is_pad_factor(n: int, pad: int) -> bool {
    &&& exists|e: nat| pad == #[trigger] power(2, e)
    &&& n > 0 ==> n * pad >= DISPLAY_FFT_SIZE
    &&& pad > 1 ==> n > 0 && n * (pad / 2) < DISPLAY_FFT_SIZE
}

/// Zero-pad factor that lifts an `n`-point transform to at least [`DISPLAY_FFT_SIZE`] points.
pub fn display_pad_factor(n: usize) -> (pad: usize)
    ensures
        is_pad_factor(n as int, pad as int),
        1 <= pad <= DISPLAY_FFT_SIZE,
{
    assert(power(2, 0) == 1);
    if n == 0 {
        return 1;
    }
    let mut pad: usize = 1;
    let ghost mut e: nat = 0;
    while pad < DISPLAY_FFT_SIZE && n < DISPLAY_FFT_SIZE && n * pad < DISPLAY_FFT_SIZE
        invariant
            n > 0,
            1 <= pad <= 4096,
            pad == power(2, e),
            pad > 1 ==> n * (pad / 2) < 4096,
            pad == 1 || pad == 2 || pad == 4 || pad == 8 || pad == 16 || pad == 32 || pad == 64
                || pad == 128 || pad == 256 || pad == 512 || pad == 1024 || pad == 2048 || pad
                == 4096,
            n < 4096 ==> n * pad <= 4096 * 4096,
        decreases 4096 - pad,
    {
        assert(n * pad <= 4096 * 4096) by (nonlinear_arith)
            requires
                0 < n < 4096,
                0 < pad <= 4096,
        ;
        proof {
            assert(power(2, e + 1) == 2 * pad);
            e = e + 1;
            assert((2 * pad) / 2 == pad);
            assert(n * (2 * pad) <= 4096 * 4096) by (nonlinear_arith)
                requires
                    n * pad < 4096,
            ;
        }
        pad = pad * 2;
    }
    proof {
        assert(pad == power(2, e));
        if n >= 4096 {
            assert(n * pad >= 4096) by (nonlinear_arith)
                requires
                    n >= 4096,
                    pad >= 1,
            ;
        } else if pad >= 4096 {
            assert(n * pad >= 4096) by (nonlinear_arith)
                requires
                    n >= 1,
                    pad >= 4096,
            ;
        }
    }
    pad
}

/// Samples a transform of `fft_size` points analyses of a record: an even number, at most
/// either.
pub open spec fn analysed(fft_size: int, available: int) -> int {
    2 * ((if fft_size <= available {
        fft_size
    } else {
        available
    }) / 2)
}

/// Points of a transform of `n` samples padded by a factor, which counts as one if it is zero.
pub open spec fn padded(n: int, pad: int) -> int {
    n * (if pad >= 1 {
        pad
    } else {
        1
    })
}

/// Samples a transform asked for `fft_size` actually analyses of a record: an even number, at
/// most either.
pub fn analysed_len(fft_size: usize, available: usize) -> (n: usize)
    ensures
        n == analysed(fft_size as int, available as int),
        n <= fft_size,
        n <= available,
        n % 2 == 0,
{
    let least: usize = if fft_size <= available {
        fft_size
    } else {
        available
    };
    (least / 2) * 2
}

// ---------------------------------------------------------------------------
// Capture sizing
// ---------------------------------------------------------------------------

/// How finely the output spectrum is resolved: the bin count of the output transform, held
/// constant across decimation factors.
#[derive(Clone, Copy, Debug, PartialEq, Eq, Structural)]
pub enum SpectrumDetail {
    Fast,
    Balanced,
    Fine,
    Max,
}

impl Default for SpectrumDetail {
    fn default() -> (detail: Self)
        ensures
            detail == SpectrumDetail::Balanced,
    {
        SpectrumDetail::Balanced
    }
}

impl SpectrumDetail {
    pub const ALL: [SpectrumDetail; 4] = [
        SpectrumDetail::Fast,
        SpectrumDetail::Balanced,
        SpectrumDetail::Fine,
        SpectrumDetail::Max,
    ];

    pub open spec fn bins(self) -> int {
        match self {
            SpectrumDetail::Fast => 512,
            SpectrumDetail::Balanced => 2048,
            SpectrumDetail::Fine => 8192,
            SpectrumDetail::Max => 32768,
        }
    }

    /// Real (unpadded) bins the output transform is asked for.
    pub fn output_bins(self) -> (bins: usize)
        ensures
            bins == self.bins(),
    {
        match self {
            SpectrumDetail::Fast => 512,
            SpectrumDetail::Balanced => 2048,
            SpectrumDetail::Fine => 8192,
            SpectrumDetail::Max => 32768,
        }
    }

    pub open spec fn name_text(self) -> Seq<char> {
        match self {
            SpectrumDetail::Fast => "Fast"@,
            SpectrumDetail::Balanced => "Balanced"@,
            SpectrumDetail::Fine => "Fine"@,
            SpectrumDetail::Max => "Max"@,
        }
    }

    /// Name and bin count shown to the user.
    pub fn label(self) -> (text: String)
        ensures
            text@ == self.name_text() + " ("@ + numeral(self.bins() as nat) + " bins)"@,
    {
        let name: &str = match self {
            SpectrumDetail::Fast => "Fast",
            SpectrumDetail::Balanced => "Balanced",
            SpectrumDetail::Fine => "Fine",
            SpectrumDetail::Max => "Max",
        };
        name.to_owned().concat(" (").concat(decimal(self.output_bins() as u64).as_str()).concat(
            " bins)",
        )
    }
}

/// How every spectrum in one capture is analysed.
#[derive(Clone, Copy, Debug, PartialEq, Eq, Structural)]
pub struct SpectrumAnalysis {
    pub window: FftWindow,
    pub detail: SpectrumDetail,
}

impl Default for SpectrumAnalysis {
    fn default() -> (analysis: Self)
        ensures
            analysis.window == FftWindow::BlackmanHarris,
            analysis.detail == SpectrumDetail::Balanced,
    {
        SpectrumAnalysis { window: DEFAULT_DISPLAY_WINDOW, detail: SpectrumDetail::default() }
    }
}

/// Samples a capture needs at the tile rate: enough for the output transform, or for the
/// analysis transform if that is longer, plus the cascade's settling time, plus headroom for
/// the resampler.
pub open spec fn tile_samples_needed(decimation: int, bins: int, warmup: int) -> int {
    let f = if decimation >= 1 {
        decimation
    } else {
        1
    };
    let for_output = bins * f;
    (if for_output >= ANALYSIS_FFT_SIZE {
        for_output
    } else {
        ANALYSIS_FFT_SIZE as int
    }) + (if f > 1 {
        warmup * f
    } else {
        0
    }) + 128
}

/// Each detail asks for four times the bins of the one before it, from 512 on, so every count is
/// a power of two.
pub proof fn details_quadruple(i: int)
    requires
        0 <= i < 4,
    ensures
        SpectrumDetail::ALL@.len() == 4,
        SpectrumDetail::ALL@[0] == SpectrumDetail::Fast,
        SpectrumDetail::ALL@[3] == SpectrumDetail::Max,
        SpectrumDetail::ALL@[0].bins() == 512,
        i > 0 ==> SpectrumDetail::ALL@[i].bins() == 4 * SpectrumDetail::ALL@[i - 1].bins(),
        SpectrumDetail::Fast.bins() < SpectrumDetail::Balanced.bins(),
        SpectrumDetail::Balanced.bins() < SpectrumDetail::Fine.bins(),
        SpectrumDetail::Fine.bins() < SpectrumDetail::Max.bins(),
{
}

/// What a capture needs counts once for each thing it must hold: a bin more, or an output sample
/// of settling more, takes one output sample's worth of tile samples; a bypassed cascade does not
/// settle; and there is always the analysis transform and the resampler's headroom.
pub proof fn needs_count_each_sample_once(decimation: int, bins: int, warmup: int)
    requires
        1 <= decimation,
        0 <= bins,
        0 <= warmup,
    ensures
        tile_samples_needed(decimation, bins, warmup) >= 2048 + 128,
        bins * decimation >= 2048 ==> tile_samples_needed(decimation, bins + 1, warmup)
            == tile_samples_needed(decimation, bins, warmup) + decimation,
        (bins + 1) * decimation <= 2048 ==> tile_samples_needed(decimation, bins + 1, warmup)
            == tile_samples_needed(decimation, bins, warmup),
        decimation > 1 ==> tile_samples_needed(decimation, bins, warmup + 1)
            == tile_samples_needed(decimation, bins, warmup) + decimation,
        tile_samples_needed(1, bins, warmup) == tile_samples_needed(1, bins, 0),
        tile_samples_needed(1, 2048, warmup) == 2048 + 128,
        tile_samples_needed(0, bins, warmup) == tile_samples_needed(1, bins, warmup),
{
    let f = decimation;
    assert((bins + 1) * f == bins * f + f) by (nonlinear_arith);
    assert((warmup + 1) * f == warmup * f + f) by (nonlinear_arith);
    assert(0 <= warmup * f && 0 <= bins * f) by (nonlinear_arith)
        requires
            0 <= warmup,
            0 <= bins,
            1 <= f,
    ;
}

/// Number of ADC-rate samples needed to fill both the ADC-rate spectra and the output spectrum
/// at `decimation` and `detail`; `warmup` is the settling time of the cascade in its own output
/// samples.
pub fn required_tile_samples(decimation: u32, detail: SpectrumDetail, warmup: usize) -> (samples: usize)
    requires
        tile_samples_needed(decimation as int, detail.bins(), warmup as int) <= usize::MAX,
    ensures
        samples == tile_samples_needed(decimation as int, detail.bins(), warmup as int),
{
    let f: u32 = if decimation >= 1 {
        decimation
    } else {
        1
    };
    proof {
        assert(0 <= warmup * f) by (nonlinear_arith)
            requires
                0 <= warmup,
                0 <= f,
        ;
        assert(0 <= detail.bins() * f) by (nonlinear_arith)
            requires
                0 <= detail.bins(),
                0 <= f,
        ;
    }
    let for_output: usize = detail.output_bins() * f as usize;
    let settling: usize = if f > 1 {
        warmup * f as usize
    } else {
        0
    };
    let longest: usize = if for_output >= ANALYSIS_FFT_SIZE {
        for_output
    } else {
        ANALYSIS_FFT_SIZE
    };
    longest + settling + 128
}

/// Finer detail, more decimation or slower settling never needs a shorter capture.
pub proof fn needs_grow(
    decimation: int,
    bins: int,
    warmup: int,
    more_decimation: int,
    more_bins: int,
    more_warmup: int,
)
    requires
        decimation <= more_decimation,
        0 <= bins <= more_bins,
        0 <= warmup <= more_warmup,
    ensures
        tile_samples_needed(decimation, bins, warmup) <= tile_samples_needed(
            more_decimation,
            more_bins,
            more_warmup,
        ),
{
    let f = if decimation >= 1 {
        decimation
    } else {
        1
    };
    let g = if more_decimation >= 1 {
        more_decimation
    } else {
        1
    };
    assert(bins * f <= more_bins * g) by (nonlinear_arith)
        requires
            0 <= bins <= more_bins,
            1 <= f <= g,
    ;
    assert(0 <= warmup * f <= more_warmup * g) by (nonlinear_arith)
        requires
            0 <= warmup <= more_warmup,
            1 <= f <= g,
    ;
}

/// Wideband samples that cover `needed` samples at the tile rate: scaled by the oversampling
/// ratio and rounded up, then brought into the capture bounds. A tile slower than 1 MHz counts
/// as 1 MHz, and a tile faster than the simulation is not undersampled.
pub open spec fn wideband_wanted(needed: int, sim_rate: int, tile_rate: int) -> int {
    let tile = if tile_rate >= 1_000_000 {
        tile_rate
    } else {
        1_000_000
    };
    let scaled = if sim_rate >= tile {
        ceil_div(needed * sim_rate, tile)
    } else {
        needed
    };
    if scaled < MIN_WIDEBAND_SAMPLES {
        MIN_WIDEBAND_SAMPLES as int
    } else if scaled > MAX_WIDEBAND_SAMPLES {
        MAX_WIDEBAND_SAMPLES as int
    } else {
        scaled
    }
}

/// A capture covers what is needed and no more. Short of its longest, it lasts at least as long as
/// the samples needed at the tile rate; longer than its shortest, one sample less would not. A
/// simulation slower than the tile is asked for as many samples as are needed.
pub proof fn captures_cover_what_is_needed(needed: int, sim_rate: int, tile_rate: int)
    requires
        0 <= needed,
        0 < sim_rate,
        tile_rate >= 1_000_000,
    ensures
        ({
            let wanted = wideband_wanted(needed, sim_rate, tile_rate);
            &&& 4096 <= wanted <= 524_288
            &&& sim_rate >= tile_rate && wanted < 524_288 ==> wanted * tile_rate >= needed * sim_rate
            &&& sim_rate >= tile_rate && wanted > 4096 ==> (wanted - 1) * tile_rate < needed
                * sim_rate
            &&& sim_rate < tile_rate && 4096 <= needed <= 524_288 ==> wanted == needed
            &&& sim_rate < tile_rate && needed < 4096 ==> wanted == 4096
            &&& sim_rate < tile_rate && needed > 524_288 ==> wanted == 524_288
        }),
        forall|slow: int| #![trigger wideband_wanted(needed, sim_rate, slow)]
            slow <= 1_000_000 ==> wideband_wanted(needed, sim_rate, slow) == wideband_wanted(
                needed,
                sim_rate,
                1_000_000,
            ),
{
    let wanted = wideband_wanted(needed, sim_rate, tile_rate);
    if sim_rate >= tile_rate {
        let x = needed * sim_rate;
        let scaled = ceil_div(x, tile_rate);
        let y = x + tile_rate - 1;
        vstd::arithmetic::div_mod::lemma_fundamental_div_mod(y, tile_rate);
        vstd::arithmetic::div_mod::lemma_mod_bound(y, tile_rate);
        assert(tile_rate * scaled == scaled * tile_rate) by (nonlinear_arith);
        assert((scaled - 1) * tile_rate == scaled * tile_rate - tile_rate) by (nonlinear_arith);
        if scaled < 4096 {
            assert(4096 * tile_rate >= scaled * tile_rate) by (nonlinear_arith)
                requires
                    scaled < 4096,
                    tile_rate > 0,
            ;
        }
        if scaled > 524_288 {
            assert((524_288 - 1) * tile_rate <= (scaled - 1) * tile_rate) by (nonlinear_arith)
                requires
                    scaled > 524_288,
                    tile_rate > 0,
            ;
        }
    }
}

/// Length of the wideband record to generate for a capture.
pub fn capture_length(needed: usize, sim_rate_mhz: Micro, tile_rate_mhz: Micro) -> (samples: usize)
    requires
        sim_rate_mhz > 0,
    ensures
        is_cheapest(
            wideband_wanted(needed as int, sim_rate_mhz as int, tile_rate_mhz as int) as nat,
            samples as nat,
        ),
{
    let tile: i128 = if tile_rate_mhz >= 1_000_000 {
        tile_rate_mhz as i128
    } else {
        1_000_000
    };
    let sim: i128 = sim_rate_mhz as i128;
    let scaled: i128 = if sim >= tile {
        assert(0 <= needed * sim <= 0xffff_ffff_ffff_ffff * 0x7fff_ffff_ffff_ffff)
            by (nonlinear_arith)
            requires
                0 <= needed <= 0xffff_ffff_ffff_ffff,
                0 < sim <= 0x7fff_ffff_ffff_ffff,
        ;
        let product: i128 = needed as i128 * sim;
        (product + (tile - 1)) / tile
    } else {
        needed as i128
    };
    let wanted: usize = if scaled < MIN_WIDEBAND_SAMPLES as i128 {
        MIN_WIDEBAND_SAMPLES
    } else if scaled > MAX_WIDEBAND_SAMPLES as i128 {
        MAX_WIDEBAND_SAMPLES
    } else {
        scaled as usize
    };
    next_smooth_size(wanted)
}

// ---------------------------------------------------------------------------
// Bin layout
// ---------------------------------------------------------------------------

/// The two halves of a spectrum exchanged, which moves zero frequency to the centre.
pub open spec fn shifted<T>(bins: Seq<T>) -> Seq<T> {
    bins.skip(bins.len() as int / 2) + bins.take(bins.len() as int / 2)
}

/// Moves zero frequency to the centre of a spectrum.
pub fn fft_shift<T: Copy>(bins: &Vec<T>) -> (moved: Vec<T>)
    ensures
        moved@ == shifted(bins@),
{
    let half: usize = bins.len() / 2;
    let mut moved: Vec<T> = Vec::new();
    let mut i: usize = half;
    while i < bins.len()
        invariant
            half == bins.len() / 2,
            half <= i <= bins.len(),
            moved@ =~= bins@.subrange(half as int, i as int),
        decreases bins.len() - i,
    {
        moved.push(bins[i]);
        i += 1;
    }
    let mut j: usize = 0;
    while j < half
        invariant
            half == bins.len() / 2,
            j <= half,
            moved@ =~= bins@.skip(half as int) + bins@.take(j as int),
        decreases half - j,
    {
        moved.push(bins[j]);
        j += 1;
    }
    assert(moved@ =~= shifted(bins@));
    moved
}

/// A spectrum of even length is back in its order after two shifts.
pub proof fn shifting_twice_is_identity<T>(bins: Seq<T>)
    requires
        bins.len() % 2 == 0,
    ensures
        shifted(shifted(bins)) == bins,
{
    assert(shifted(shifted(bins)) =~= bins);
}

/// The signed bin number of transform output `i` of `n`: the upper half holds the negative
/// frequencies.
pub open spec fn signed_bin(i: int, n: int) -> int {
    if i <= n / 2 {
        i
    } else {
        i - n
    }
}

/// The signed bin number of transform output `i` of `n`.
pub fn signed_bin_of(i: usize, n: usize) -> (k: i128)
    requires
        i < n,
    ensures
        k == signed_bin(i as int, n as int),
{
    if i <= n / 2 {
        i as i128
    } else {
        i as i128 - n as i128
    }
}

/// The number of a bin is its index up to whole turns of the transform, and lies within half the
/// transform either side of zero, half of it itself counting as positive.
pub proof fn bin_numbers_are_the_nearest_to_zero(i: int, n: int)
    requires
        0 <= i < n,
    ensures
        signed_bin(i, n) == i || signed_bin(i, n) == i - n,
        -n < 2 * signed_bin(i, n) <= n,
{
}

/// A shift turns a spectrum by half its length: what stood at a place half a turn on stands there
/// afterwards, and zero frequency stands in the middle.
pub proof fn shifting_turns_by_half<T>(bins: Seq<T>, i: int)
    requires
        0 <= i < bins.len(),
    ensures
        shifted(bins).len() == bins.len(),
        shifted(bins)[i] == bins[(i + bins.len() as int / 2) % bins.len() as int],
        shifted(bins)[bins.len() as int - bins.len() as int / 2] == bins[0] || bins.len() == 1,
{
    let n = bins.len() as int;
    let h = n / 2;
    if i + h < n {
        vstd::arithmetic::div_mod::lemma_small_mod((i + h) as nat, n as nat);
    } else {
        vstd::arithmetic::div_mod::lemma_mod_add_multiples_vanish(i + h - n, n);
        vstd::arithmetic::div_mod::lemma_small_mod((i + h - n) as nat, n as nat);
    }
}

/// The bin that holds the conjugate of bin `i`: the one at the opposite frequency. Zero
/// frequency, and the Nyquist bin of an even transform, have none but themselves.
pub fn mirror_bin(i: usize, n: usize) -> (mirror: Option<usize>)
    requires
        i <= n / 2,
        n > 0,
    ensures
        mirror is Some <==> n - i != i && n - i < n,
        mirror is Some ==> mirror->0 == n - i,
        mirror is Some ==> signed_bin(mirror->0 as int, n as int) == -signed_bin(i as int, n as int),
        mirror is None <==> i == 0 || 2 * i == n,
{
    let other: usize = n - i;
    if other != i && other < n {
        Some(other)
    } else {
        None
    }
}

/// Applies `lift` to every bin of a one-sided spectrum that stands in for its mirror image as
/// well: all but the first and the last.
pub fn fold_positive<T: Copy, F: Fn(T) -> T>(bins: &Vec<T>, lift: &F) -> (folded: Vec<T>)
    requires
        forall|x: T| #[trigger] call_requires(*lift, (x,)),
    ensures
        is_folded(*lift, bins@, folded@),
{
    let mut folded: Vec<T> = Vec::new();
    let mut i: usize = 0;
    while i < bins.len()
        invariant
            forall|x: T| #[trigger] call_requires(*lift, (x,)),
            i <= bins.len(),
            folded.len() == i,
            forall|j: int|
                0 <= j < i ==> if 0 < j < bins.len() - 1 {
                    call_ensures(*lift, (bins[j],), #[trigger] folded[j])
                } else {
                    folded[j] == bins[j]
                },
        decreases bins.len() - i,
    {
        let x: T = bins[i];
        if i > 0 && i < bins.len() - 1 {
            let y: T = lift(x);
            folded.push(y);
        } else {
            folded.push(x);
        }
        i += 1;
    }
    folded
}

/// Shapes the spectrum of a real signal bin by bin. `respond(i, bin)` is what becomes of bin
/// `i` of the lower half, `conjugate` mirrors a bin and `straighten` drops its imaginary part.
///
/// Only the lower half is visited; the upper half mirrors it. Zero frequency, and the Nyquist
/// bin of an even transform, have no partner to be conjugate with, so they are made real.
pub fn shape_real_spectrum<
    B: Copy,
    R: Fn(usize, B) -> B,
    C: Fn(B) -> B,
    S: Fn(B) -> B,
>(bins: &mut Vec<B>, respond: R, conjugate: C, straighten: S)
    requires
        forall|i: usize, b: B| #[trigger] call_requires(respond, (i, b)),
        forall|b: B| #[trigger] call_requires(conjugate, (b,)),
        forall|b: B| #[trigger] call_requires(straighten, (b,)),
    ensures
        final(bins).len() == old(bins).len(),
        old(bins).len() > 0 ==> {
            let n = old(bins).len() as int;
            &&& forall|i: int|
                0 < i <= n / 2 && 2 * i != n ==> call_ensures(
                    respond,
                    (i as usize, old(bins)[i]),
                    #[trigger] final(bins)[i],
                )
            &&& forall|i: int|
                0 < i <= n / 2 && 2 * i != n ==> call_ensures(
                    conjugate,
                    (#[trigger] final(bins)[i],),
                    final(bins)[n - i],
                )
            &&& is_straightened(respond, straighten, 0, old(bins)[0], final(bins)[0])
            &&& n % 2 == 0 ==> is_straightened(
                respond,
                straighten,
                (n / 2) as usize,
                old(bins)[n / 2],
                final(bins)[n / 2],
            )
        },
{
    let n: usize = bins.len();
    if n == 0 {
        return;
    }
    let ghost before = bins@;
    let half: usize = n / 2;
    let mut i: usize = 0;
    while i <= half
        invariant
            forall|i: usize, b: B| #[trigger] call_requires(respond, (i, b)),
            forall|b: B| #[trigger] call_requires(conjugate, (b,)),
            n == before.len(),
            n > 0,
            half == n / 2,
            i <= half + 1,
            bins.len() == n,
            forall|j: int|
                0 <= j < i ==> call_ensures(respond, (j as usize, before[j]), #[trigger] bins@[j]),
            forall|j: int|
                0 < j < i && 2 * j != n ==> call_ensures(
                    conjugate,
                    (#[trigger] bins@[j],),
                    bins@[n - j],
                ),
            forall|j: int| i <= j <= half ==> bins@[j] == before[j],
        decreases half + 1 - i,
    {
        let lower: B = respond(i, bins[i]);
        let ghost stage = bins@;
        bins[i] = lower;
        if let Some(mirror) = mirror_bin(i, n) {
            let upper: B = conjugate(lower);
            bins[mirror] = upper;
        }
        proof {
            assert forall|j: int| 0 < j < i + 1 && 2 * j != n implies call_ensures(
                conjugate,
                (#[trigger] bins@[j],),
                bins@[n - j],
            ) by {
                if j < i {
                    assert(bins@[j] == stage[j]);
                    assert(bins@[n - j] == stage[n - j]);
                }
            }
            assert forall|j: int| 0 <= j < i + 1 implies call_ensures(
                respond,
                (j as usize, before[j]),
                #[trigger] bins@[j],
            ) by {
                if j < i {
                    assert(bins@[j] == stage[j]);
                }
            }
        }
        i += 1;
    }
    let ghost shaped = bins@;
    let first: B = straighten(bins[0]);
    bins[0] = first;
    if n % 2 == 0 {
        let middle: B = straighten(bins[half]);
        bins[half] = middle;
    }
    proof {
        assert(call_ensures(respond, (0usize, before[0]), shaped[0]));
        assert(is_straightened(respond, straighten, 0, before[0], bins@[0])) by {
            assert(call_ensures(straighten, (shaped[0],), first));
        }
        if n % 2 == 0 {
            assert(half as int != 0);
            assert(call_ensures(respond, (half, before[half as int]), shaped[half as int]));
            assert(is_straightened(
                respond,
                straighten,
                half,
                before[half as int],
                bins@[half as int],
            ));
        }
        assert forall|j: int| 0 < j <= n / 2 && 2 * j != n implies call_ensures(
            conjugate,
            (#[trigger] bins@[j],),
            bins@[n - j],
        ) by {
            assert(bins@[j] == shaped[j] && bins@[n - j] == shaped[n - j]);
        }
        assert forall|j: int| 0 < j <= n / 2 && 2 * j != n implies call_ensures(
            respond,
            (j as usize, before[j]),
            #[trigger] bins@[j],
        ) by {
            assert(bins@[j] == shaped[j]);
        }
    }
}

/// `after` is what `respond` made of a bin, made real.
pub open spec fn is_straightened<B, R: Fn(usize, B) -> B, S: Fn(B) -> B>(
    respond: R,
    straighten: S,
    i: usize,
    before: B,
    after: B,
) -> bool {
    exists|shaped: B| #[trigger]
        call_ensures(respond, (i, before), shaped) && call_ensures(straighten, (shaped,), after)
}

/// `buffer` holds the first `n` samples, windowed, and is filled up with `zero`.
pub open spec fn is_windowed<T, W: Fn(FftWindow, usize, usize, T) -> T>(
    shape: W,
    window: FftWindow,
    samples: Seq<T>,
    n: int,
    zero: T,
    buffer: Seq<T>,
) -> bool {
    &&& forall|i: int|
        0 <= i < n ==> call_ensures(
            shape,
            (window, i as usize, n as usize, samples[i]),
            #[trigger] buffer[i],
        )
    &&& forall|i: int| n <= i < buffer.len() ==> #[trigger] buffer[i] == zero
}

/// `bins` are the levels of the first `n` samples in a transform of `len` points: the samples are
/// windowed, the rest of the transform's input is zero.
pub open spec fn is_analysis<
    T,
    L,
    W: Fn(FftWindow, usize, usize, T) -> T,
    F: Fn(FftWindow, Vec<T>, usize) -> Vec<L>,
>(
    shape: W,
    levels: F,
    window: FftWindow,
    samples: Seq<T>,
    n: int,
    len: int,
    zero: T,
    bins: Vec<L>,
) -> bool {
    exists|buffer: Vec<T>|
        {
            &&& buffer.len() == len
            &&& is_windowed(shape, window, samples, n, zero, buffer@)
            &&& #[trigger] call_ensures(levels, (window, buffer, n as usize), bins)
        }
}

/// Two records that agree on the samples analysed have the same levels, whatever follows.
pub proof fn later_samples_have_no_effect<
    T,
    L,
    W: Fn(FftWindow, usize, usize, T) -> T,
    F: Fn(FftWindow, Vec<T>, usize) -> Vec<L>,
>(
    shape: W,
    levels: F,
    window: FftWindow,
    samples: Seq<T>,
    others: Seq<T>,
    fft_size: int,
    len: int,
    zero: T,
    bins: Vec<L>,
)
    requires
        0 <= fft_size,
        analysed(fft_size, samples.len() as int) == analysed(fft_size, others.len() as int),
        forall|i: int|
            0 <= i < analysed(fft_size, samples.len() as int) ==> #[trigger] samples[i]
                == others[i],
    ensures
        ({
            let n = analysed(fft_size, samples.len() as int);
            is_analysis(shape, levels, window, samples, n, len, zero, bins) <==> is_analysis(
                shape,
                levels,
                window,
                others,
                n,
                len,
                zero,
                bins,
            )
        }),
{
    let n = analysed(fft_size, samples.len() as int);
    if is_analysis(shape, levels, window, samples, n, len, zero, bins) {
        let buffer: Vec<T> = choose|buffer: Vec<T>|
            {
                &&& buffer.len() == len
                &&& is_windowed(shape, window, samples, n, zero, buffer@)
                &&& #[trigger] call_ensures(levels, (window, buffer, n as usize), bins)
            };
        assert(is_windowed(shape, window, others, n, zero, buffer@));
    }
    if is_analysis(shape, levels, window, others, n, len, zero, bins) {
        let buffer: Vec<T> = choose|buffer: Vec<T>|
            {
                &&& buffer.len() == len
                &&& is_windowed(shape, window, others, n, zero, buffer@)
                &&& #[trigger] call_ensures(levels, (window, buffer, n as usize), bins)
            };
        assert(is_windowed(shape, window, samples, n, zero, buffer@));
    }
}

/// The first `n` samples, windowed, in a buffer of `len`.
fn windowed<T: Copy, W: Fn(FftWindow, usize, usize, T) -> T>(
    samples: &Vec<T>,
    n: usize,
    len: usize,
    zero: T,
    window: FftWindow,
    shape: &W,
) -> (buffer: Vec<T>)
    requires
        n <= samples.len(),
        n <= len,
        forall|i: usize, n: usize, x: T| #[trigger] call_requires(*shape, (window, i, n, x)),
    ensures
        buffer.len() == len,
        is_windowed(*shape, window, samples@, n as int, zero, buffer@),
{
    let mut buffer: Vec<T> = Vec::new();
    let mut i: usize = 0;
    while i < len
        invariant
            n <= samples.len(),
            n <= len,
            forall|i: usize, n: usize, x: T| #[trigger] call_requires(*shape, (window, i, n, x)),
            i <= len,
            buffer.len() == i,
            forall|k: int|
                0 <= k < i && k < n ==> call_ensures(
                    *shape,
                    (window, k as usize, n, samples[k]),
                    #[trigger] buffer[k],
                ),
            forall|k: int| n <= k < i ==> #[trigger] buffer[k] == zero,
        decreases len - i,
    {
        let x: T = if i < n {
            shape(window, i, n, samples[i])
        } else {
            zero
        };
        buffer.push(x);
        i += 1;
    }
    buffer
}

/// Points of a transform that analyses a record.
pub open spec fn transform_points(available: int, fft_size: int, pad: int) -> int {
    padded(analysed(fft_size, available), pad)
}

/// Points of the non-negative half of a transform; none if there is no transform.
pub open spec fn one_sided(points: int) -> int {
    if points == 0 {
        0
    } else {
        points / 2 + 1
    }
}

fn points_of(n: usize, pad: usize) -> (len: usize)
    requires
        padded(n as int, pad as int) <= usize::MAX,
    ensures
        len == padded(n as int, pad as int),
        len >= n,
        n == 0 ==> len == 0,
{
    let factor: usize = if pad >= 1 {
        pad
    } else {
        1
    };
    assert(n <= n * factor) by (nonlinear_arith)
        requires
            0 <= n,
            1 <= factor,
    ;
    assert(n == 0 ==> n * factor == 0) by (nonlinear_arith);
    n * factor
}

/// The bin numbers of a spectrum of `points` points, in the order it is drawn: from the most
/// negative up with zero in the middle if it has two sides, from zero up if it has one. A bin
/// stands for its number times the sample rate over the points of the transform.
pub fn axis_bins(points: usize, two_sided: bool) -> (axis: Vec<i128>)
    ensures
        axis.len() == points,
        forall|i: int|
            0 <= i < points ==> #[trigger] axis[i] == if two_sided {
                i - points as int / 2
            } else {
                i
            },
{
    let first: i128 = if two_sided {
        -((points / 2) as i128)
    } else {
        0
    };
    let mut axis: Vec<i128> = Vec::new();
    let mut i: usize = 0;
    while i < points
        invariant
            i <= points,
            axis.len() == i,
            first == if two_sided {
                -(points as int / 2)
            } else {
                0
            },
            forall|j: int| 0 <= j < i ==> #[trigger] axis[j] == first + j,
        decreases points - i,
    {
        axis.push(first + i as i128);
        i += 1;
    }
    axis
}

/// `spectrum` is a two-sided spectrum of a record, zero frequency in the middle. The first
/// `fft_size` samples, an even number of them, are windowed by `shape(window, i, n, x)` and
/// zero-padded by a factor; `levels` transforms that buffer, `n` of whose points are samples.
/// It is empty if there is nothing to analyse.
pub open spec fn is_spectrum<
    T,
    L,
    W: Fn(FftWindow, usize, usize, T) -> T,
    F: Fn(FftWindow, Vec<T>, usize) -> Vec<L>,
>(
    shape: W,
    levels: F,
    window: FftWindow,
    samples: Seq<T>,
    fft_size: int,
    pad: int,
    zero: T,
    spectrum: Seq<L>,
) -> bool {
    let n = analysed(fft_size, samples.len() as int);
    let points = transform_points(samples.len() as int, fft_size, pad);
    &&& spectrum.len() == points
    &&& n > 0 ==> exists|bins: Vec<L>|
        is_analysis(shape, levels, window, samples, n, points, zero, bins) && spectrum == shifted(
            #[trigger] bins@,
        )
}

/// `spectrum` is a one-sided spectrum of a record: as for [`is_spectrum`], but `levels` gives the
/// non-negative bins only, and `lift` adds what the bins that stand in for their mirror image
/// owe.
pub open spec fn is_one_sided_spectrum<
    T,
    L,
    W: Fn(FftWindow, usize, usize, T) -> T,
    F: Fn(FftWindow, Vec<T>, usize) -> Vec<L>,
    G: Fn(L) -> L,
>(
    shape: W,
    levels: F,
    lift: G,
    window: FftWindow,
    samples: Seq<T>,
    fft_size: int,
    pad: int,
    zero: T,
    spectrum: Seq<L>,
) -> bool {
    let n = analysed(fft_size, samples.len() as int);
    let points = transform_points(samples.len() as int, fft_size, pad);
    &&& spectrum.len() == one_sided(points)
    &&& n > 0 ==> exists|bins: Vec<L>|
        is_analysis(shape, levels, window, samples, n, points, zero, bins) && is_folded(
            lift,
            #[trigger] bins@,
            spectrum,
        )
}

/// A two-sided spectrum of a record and its bin numbers, zero frequency in the middle. As many
/// samples as the transform takes are windowed by `shape(window, i, n, x)` and zero-padded;
/// `levels` transforms that buffer, `n` of whose points are samples, and gives the level of each
/// bin. Both are empty if there is nothing to analyse.
pub fn compute_spectrum_padded<
    T: Copy,
    L: Copy,
    W: Fn(FftWindow, usize, usize, T) -> T,
    F: Fn(FftWindow, Vec<T>, usize) -> Vec<L>,
>(
    samples: &Vec<T>,
    fft_size: usize,
    window: FftWindow,
    pad: usize,
    zero: T,
    shape: &W,
    levels: &F,
) -> (result: (Vec<L>, Vec<i128>))
    requires
        transform_points(samples.len() as int, fft_size as int, pad as int) <= usize::MAX,
        forall|i: usize, n: usize, x: T| #[trigger] call_requires(*shape, (window, i, n, x)),
        forall|buffer: Vec<T>, n: usize| #[trigger] call_requires(*levels, (window, buffer, n)),
        forall|buffer: Vec<T>, n: usize, bins: Vec<L>| #[trigger]
            call_ensures(*levels, (window, buffer, n), bins) ==> bins.len() == buffer.len(),
    ensures
        is_spectrum(
            *shape,
            *levels,
            window,
            samples@,
            fft_size as int,
            pad as int,
            zero,
            result.0@,
        ),
        result.1.len() == result.0.len(),
        forall|i: int|
            0 <= i < result.1.len() ==> #[trigger] result.1[i] == i - result.1.len() as int / 2,
{
    let n: usize = analysed_len(fft_size, samples.len());
    let len: usize = points_of(n, pad);
    if n == 0 {
        return (Vec::new(), Vec::new());
    }
    let buffer: Vec<T> = windowed(samples, n, len, zero, window, shape);
    let ghost input = buffer;
    let bins: Vec<L> = (*levels)(window, buffer, n);
    assert(call_ensures(*levels, (window, input, (n as int) as usize), bins));
    assert(is_analysis(*shape, *levels, window, samples@, n as int, len as int, zero, bins));
    (fft_shift(&bins), axis_bins(len, true))
}

/// A one-sided spectrum of a record and its bin numbers. As [`compute_spectrum_padded`], but
/// `levels` gives the non-negative bins only, and `lift` adds what the bins that stand in for
/// their mirror image owe.
pub fn compute_spectrum_positive_padded<
    T: Copy,
    L: Copy,
    W: Fn(FftWindow, usize, usize, T) -> T,
    F: Fn(FftWindow, Vec<T>, usize) -> Vec<L>,
    G: Fn(L) -> L,
>(
    samples: &Vec<T>,
    fft_size: usize,
    window: FftWindow,
    pad: usize,
    zero: T,
    shape: &W,
    levels: &F,
    lift: &G,
) -> (result: (Vec<L>, Vec<i128>))
    requires
        transform_points(samples.len() as int, fft_size as int, pad as int) <= usize::MAX,
        forall|i: usize, n: usize, x: T| #[trigger] call_requires(*shape, (window, i, n, x)),
        forall|buffer: Vec<T>, n: usize| #[trigger] call_requires(*levels, (window, buffer, n)),
        forall|buffer: Vec<T>, n: usize, bins: Vec<L>| #[trigger]
            call_ensures(*levels, (window, buffer, n), bins) ==> bins.len() == one_sided(
                buffer.len() as int,
            ),
        forall|x: L| #[trigger] call_requires(*lift, (x,)),
    ensures
        is_one_sided_spectrum(
            *shape,
            *levels,
            *lift,
            window,
            samples@,
            fft_size as int,
            pad as int,
            zero,
            result.0@,
        ),
        result.1.len() == result.0.len(),
        forall|i: int| 0 <= i < result.1.len() ==> #[trigger] result.1[i] == i,
{
    let n: usize = analysed_len(fft_size, samples.len());
    let len: usize = points_of(n, pad);
    if n == 0 {
        return (Vec::new(), Vec::new());
    }
    let buffer: Vec<T> = windowed(samples, n, len, zero, window, shape);
    let ghost input = buffer;
    let bins: Vec<L> = (*levels)(window, buffer, n);
    assert(call_ensures(*levels, (window, input, (n as int) as usize), bins));
    assert(is_analysis(*shape, *levels, window, samples@, n as int, len as int, zero, bins));
    let spectrum: Vec<L> = fold_positive(&bins, lift);
    assert(is_folded(*lift, bins@, spectrum@));
    (spectrum, axis_bins(len / 2 + 1, false))
}

/// `folded` is a one-sided spectrum with every bin but the first and the last lifted.
pub open spec fn is_folded<T, F: Fn(T) -> T>(lift: F, bins: Seq<T>, folded: Seq<T>) -> bool {
    &&& folded.len() == bins.len()
    &&& forall|i: int|
        0 <= i < bins.len() ==> if 0 < i < bins.len() - 1 {
            call_ensures(lift, (bins[i],), #[trigger] folded[i])
        } else {
            folded[i] == bins[i]
        }
}

/// A transform of real samples and one of the same samples as complex numbers agree, as far as
/// the arithmetic handed in does. `embed` makes a real number complex; `near` says that two
/// spectra agree. If windowing commutes with `embed`, the two transforms agree on every buffer,
/// and lifting keeps the agreement, then the one-sided spectra of a record agree, have the same
/// length, and are drawn over the same bins.
pub proof fn real_and_complex_spectra_agree<
    V,
    Z,
    L,
    WV: Fn(FftWindow, usize, usize, V) -> V,
    FV: Fn(FftWindow, Vec<V>, usize) -> Vec<L>,
    WZ: Fn(FftWindow, usize, usize, Z) -> Z,
    FZ: Fn(FftWindow, Vec<Z>, usize) -> Vec<L>,
    G: Fn(L) -> L,
>(
    shape: WV,
    levels: FV,
    complex_shape: WZ,
    complex_levels: FZ,
    lift: G,
    window: FftWindow,
    embed: spec_fn(V) -> Z,
    near: spec_fn(Seq<L>, Seq<L>) -> bool,
    samples: Seq<V>,
    complex: Seq<Z>,
    fft_size: int,
    pad: int,
    zero: V,
    real_spectrum: Seq<L>,
    complex_spectrum: Seq<L>,
)
    requires
        0 <= fft_size,
        complex == samples.map_values(embed),
        forall|i: usize, n: usize, x: V, y: V, z: Z|
            #[trigger] call_ensures(shape, (window, i, n, x), y) && #[trigger] call_ensures(
                complex_shape,
                (window, i, n, embed(x)),
                z,
            ) ==> z == embed(y),
        forall|a: Vec<V>, b: Vec<Z>, n: usize, p: Vec<L>, q: Vec<L>|
            b@ == a@.map_values(embed) && #[trigger] call_ensures(levels, (window, a, n), p)
                && #[trigger] call_ensures(complex_levels, (window, b, n), q) ==> near(p@, q@),
        forall|p: Seq<L>, q: Seq<L>, lifted_p: Seq<L>, lifted_q: Seq<L>|
            near(p, q) && #[trigger] is_folded(lift, p, lifted_p) && #[trigger] is_folded(
                lift,
                q,
                lifted_q,
            ) ==> near(lifted_p, lifted_q),
        is_one_sided_spectrum(
            shape,
            levels,
            lift,
            window,
            samples,
            fft_size,
            pad,
            zero,
            real_spectrum,
        ),
        is_one_sided_spectrum(
            complex_shape,
            complex_levels,
            lift,
            window,
            complex,
            fft_size,
            pad,
            embed(zero),
            complex_spectrum,
        ),
    ensures
        real_spectrum.len() == complex_spectrum.len(),
        real_spectrum.len() == one_sided(transform_points(samples.len() as int, fft_size, pad)),
        real_spectrum.len() > 0 ==> near(real_spectrum, complex_spectrum),
{
    let n = analysed(fft_size, samples.len() as int);
    let points = transform_points(samples.len() as int, fft_size, pad);
    if n == 0 {
        assert(points == 0) by (nonlinear_arith)
            requires
                n == 0,
                points == n * (if pad >= 1 {
                    pad
                } else {
                    1
                }),
        ;
    } else {
        let p = choose|bins: Vec<L>|
            is_analysis(shape, levels, window, samples, n, points, zero, bins) && is_folded(
                lift,
                #[trigger] bins@,
                real_spectrum,
            );
        let q = choose|bins: Vec<L>|
            is_analysis(
                complex_shape,
                complex_levels,
                window,
                complex,
                n,
                points,
                embed(zero),
                bins,
            ) && is_folded(lift, #[trigger] bins@, complex_spectrum);
        let a = choose|buffer: Vec<V>|
            {
                &&& buffer.len() == points
                &&& is_windowed(shape, window, samples, n, zero, buffer@)
                &&& #[trigger] call_ensures(levels, (window, buffer, n as usize), p)
            };
        let b = choose|buffer: Vec<Z>|
            {
                &&& buffer.len() == points
                &&& is_windowed(complex_shape, window, complex, n, embed(zero), buffer@)
                &&& #[trigger] call_ensures(complex_levels, (window, buffer, n as usize), q)
            };
        assert forall|i: int| 0 <= i < points implies #[trigger] b@[i] == embed(a@[i]) by {
            if i < n {
                assert(complex[i] == embed(samples[i]));
                assert(call_ensures(shape, (window, i as usize, n as usize, samples[i]), a@[i]));
                assert(call_ensures(
                    complex_shape,
                    (window, i as usize, n as usize, complex[i]),
                    b@[i],
                ));
            }
        }
        assert(b@ =~= a@.map_values(embed));
        assert(near(p@, q@));
    }
}

} // verus!
